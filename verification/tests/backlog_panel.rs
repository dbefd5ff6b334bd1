use thock::backlog_panel::{
    append_step, move_step, rename_step, write_failed, AppendStep, BacklogWrite, MoveStep, RenameStep,
};
use thock::backlog_panel::{
    body_hint, commit_edit, copied_markdown, link_text, move_error, note_created,
    restore_hidden_suffix, triage_action, Backlog, BacklogPanel, BacklogTask, Commit, EditTarget, InlineSpan, LoadStep,
    Marking, RowBackground, SectionKind, TaskSelection, TriageAction, VaultKind,
};
use thock::moments::Date;

fn task(text: &str, line: u32, checked: bool, day: Option<u32>) -> BacklogTask {
    BacklogTask {
        text: text.to_string(),
        line,
        checked,
        completed_on: day.map(|day| Date { year: 2026, month: 9, day }),
    }
}

fn panel() -> BacklogPanel {
    BacklogPanel {
        backlog: Backlog {
            soon: vec![
                task("one <!--gmail:9f2c1ab4e7d0-->", 2, false, None),
                task("done already", 3, true, None),
                task("two", 4, false, None),
            ],
            someday: vec![],
            completed: vec![
                task("older", 9, true, Some(3)),
                task("undated", 10, true, None),
                task("newer", 11, true, Some(8)),
                task("also newer", 12, true, Some(8)),
            ],
        },
        selected: None,
        copy_flash: None,
        edit: None,
        marking: Marking::Idle,
        has_buffer: true,
    }
}

fn at(section: SectionKind, index: usize) -> Option<TaskSelection> {
    Some(TaskSelection { section, index })
}

#[test]
fn renames_keep_the_hidden_trailing_comment() {
    assert_eq!(
        restore_hidden_suffix("Pay invoice <!--gmail:9f2c1ab4e7d0-->", "Pay invoice today"),
        "Pay invoice today <!--gmail:9f2c1ab4e7d0-->"
    );
    assert_eq!(restore_hidden_suffix("Plain task", "Renamed task"), "Renamed task");
    // A mid-line comment is visible content, not identity: untouched.
    assert_eq!(
        restore_hidden_suffix("a <!-- note --> b", "a <!-- note --> c"),
        "a <!-- note --> c"
    );
}

#[test]
fn columns_show_open_tasks_and_completed_ones_newest_first() {
    let backlog = panel().backlog;
    assert_eq!(backlog.visible_tasks(SectionKind::Soon), [0, 2]);
    assert!(backlog.visible_tasks(SectionKind::Someday).is_empty());
    // Later in the file counts as newer on one day; undated ones come last.
    assert_eq!(backlog.visible_tasks(SectionKind::Completed), [3, 2, 0, 1]);
    assert!(!backlog.is_empty());
    assert!(Backlog::default().is_empty());
}

#[test]
fn the_cursor_moves_and_clamps() {
    let mut panel = panel();
    panel.select_previous();
    assert_eq!(panel.selected, at(SectionKind::Soon, 1));
    panel.select_next();
    assert_eq!(panel.selected, at(SectionKind::Soon, 1));
    panel.select_first();
    assert_eq!(panel.selected, at(SectionKind::Soon, 0));
    // An empty column is passed over.
    panel.select_column(true);
    assert_eq!(panel.selected, at(SectionKind::Completed, 0));
    panel.select_last();
    assert_eq!(panel.selected, at(SectionKind::Completed, 3));
    panel.select_column(false);
    assert_eq!(panel.selected, at(SectionKind::Soon, 1));
    panel.selected = at(SectionKind::Soon, 7);
    assert_eq!(panel.selection(), at(SectionKind::Soon, 1));
    panel.reparse(Backlog::default());
    assert_eq!(panel.selection(), None);
    panel.select_next();
    assert_eq!(panel.selected, at(SectionKind::Soon, 7));
}

#[test]
fn editing_starts_on_open_tasks_alone() {
    let mut panel = panel();
    panel.select_row(SectionKind::Soon, 1);
    assert_eq!(
        panel.edit_selected_task(),
        Some(EditTarget::Existing {
            section: SectionKind::Soon,
            line: 4,
            original_text: "two".to_string(),
        })
    );
    assert_eq!(panel.move_from(SectionKind::Someday), Some(SectionKind::Soon));
    assert_eq!(panel.move_from(SectionKind::Soon), None);
    assert_eq!(panel.add_task(), Some(EditTarget::New { section: SectionKind::Soon }));
    panel.select_row(SectionKind::Completed, 0);
    assert_eq!(panel.edit_selected_task(), None);
    assert_eq!(panel.add_task(), None);
    assert_eq!(panel.move_from(SectionKind::Soon), None);
    panel.follow_move(SectionKind::Soon);
    assert_eq!(panel.selected, at(SectionKind::Soon, 1));
}

#[test]
fn commits_rename_append_or_revert() {
    let target = || EditTarget::Existing {
        section: SectionKind::Soon,
        line: 2,
        original_text: "one <!--gmail:9f2c1ab4e7d0-->".to_string(),
    };
    assert_eq!(commit_edit(target(), "  ", true), Commit::Nothing);
    assert_eq!(commit_edit(target(), " one ", true), Commit::Nothing);
    assert_eq!(commit_edit(target(), "uno", false), Commit::NotOpen);
    assert_eq!(
        commit_edit(target(), "uno", true),
        Commit::Rename {
            section: SectionKind::Soon,
            line: 2,
            original_text: "one <!--gmail:9f2c1ab4e7d0-->".to_string(),
            new_text: "uno <!--gmail:9f2c1ab4e7d0-->".to_string(),
        }
    );
    let add = EditTarget::New { section: SectionKind::Someday };
    assert_eq!(
        commit_edit(add, " learn to fly ", false),
        Commit::Append { section: SectionKind::Someday, text: "learn to fly".to_string() }
    );
}

#[test]
fn completing_writes_the_note_before_the_backlog() {
    let mut panel = panel();
    assert!(!panel.mark_done(false));
    assert!(panel.mark_done(true));
    assert!(!panel.mark_done(true));
    assert_eq!(
        panel.note_written(Some("disk full".to_string())).as_deref(),
        Some("Couldn't record the task in today's note: disk full")
    );
    assert_eq!(panel.marking, Marking::Idle);
    assert!(panel.mark_done(true));
    assert_eq!(panel.note_written(None), None);
    assert_eq!(panel.marking, Marking::InBacklog);
    let error = move_error(true, false).map(str::to_string);
    assert_eq!(
        panel.backlog_written(error).as_deref(),
        Some(
            "The task was recorded in today's note, but the backlog couldn't be updated: \
             the task changed while it was being completed"
        )
    );
    assert_eq!(panel.marking, Marking::Idle);
    assert_eq!(move_error(false, true), Some("backlog.md is no longer open"));
    assert_eq!(move_error(true, true), None);
}

#[test]
fn open_rows_hide_the_marker_and_name_their_parts() {
    let mut panel = panel();
    panel.select_row(SectionKind::Soon, 0);
    let row = panel.open_task_row(SectionKind::Soon, 0, &panel.backlog.soon[0]).unwrap();
    assert_eq!(row.text, "one");
    assert_eq!(row.check_id, "backlog-check-Soon-0");
    assert_eq!(row.move_tooltip, "Move to Someday");
    assert_eq!(row.background, RowBackground::Selected);
    assert!(!row.check_disabled);
    panel.copy_flash = at(SectionKind::Soon, 0);
    assert_eq!(
        panel.row_background(TaskSelection { section: SectionKind::Soon, index: 0 }),
        RowBackground::Flash
    );
    panel.edit = panel.edit_selected_task();
    assert!(panel.is_editing(SectionKind::Soon, 2, "one <!--gmail:9f2c1ab4e7d0-->"));
    assert!(panel.open_task_row(SectionKind::Soon, 0, &panel.backlog.soon[0]).is_none());
    assert!(!panel.is_adding_to(SectionKind::Soon));
}

#[test]
fn copies_take_the_file_text_or_a_fresh_line() {
    assert_eq!(copied_markdown(Some("- [ ] a\n  - b\n\n"), "a", false), "\n- [ ] a\n  - b");
    assert_eq!(copied_markdown(None, "a", false), "\n- [ ] a");
    assert_eq!(copied_markdown(None, "a", true), "\n- [x] a");
}

#[test]
fn link_ranges_are_in_bytes() {
    let spans = [
        InlineSpan::Text("é ".to_string()),
        InlineSpan::Link { text: "mail".to_string(), url: "https://m".to_string() },
        InlineSpan::Text(".".to_string()),
    ];
    let linked = link_text(&spans);
    assert_eq!(linked.display, "é mail.");
    assert_eq!(linked.links, vec![(3, 7, "https://m".to_string())]);
}

#[test]
fn hints_and_the_triage_row() {
    assert_eq!(
        body_hint(VaultKind::NotAVault, true, false),
        Some("Open a Thock vault to use the backlog.")
    );
    assert_eq!(
        body_hint(VaultKind::Valid, true, true),
        Some("Nothing in the backlog. Wrap skills can move unfinished tasks here.")
    );
    assert_eq!(body_hint(VaultKind::Valid, true, false), None);
    assert_eq!(triage_action(&["triage-inbox".to_string()]), TriageAction::RunTriage);
    assert_eq!(triage_action(&[]), TriageAction::OpenInbox);
}

#[test]
fn headers_count_what_is_shown() {
    let panel = panel();
    let header = panel.open_header(SectionKind::Soon);
    assert_eq!(header.title, "Soon");
    assert_eq!(header.count, "2");
    assert_eq!(header.add_id, "backlog-add-Soon");
    assert_eq!(header.add_tooltip, "Add to Soon");
    assert_eq!(header.list_id, "backlog-section-Soon");
    assert_eq!(panel.open_header(SectionKind::Someday).add_tooltip, "Add to Someday");
}

#[test]
fn completed_rows_show_their_day() {
    let mut panel = panel();
    panel.selected = at(SectionKind::Completed, 1);
    let row = panel.completed_row(1, &panel.backlog.completed[2]);
    assert_eq!(row.0, RowBackground::Selected);
    assert_eq!(row.1, "backlog-text-completed-1");
    assert_eq!(row.2.as_deref(), Some("2026-09-08"));
    let row = panel.completed_row(0, &panel.backlog.completed[1]);
    assert_eq!((row.0, row.2), (RowBackground::Plain, None));
}

#[test]
fn the_file_is_loaded_kept_or_let_go() {
    let mut panel = panel();
    panel.selected = at(SectionKind::Soon, 0);
    let path = Some("/vault/backlog.md");
    assert_eq!(panel.ensure_buffer(path, path), LoadStep::StopLoading);
    assert_eq!(panel.ensure_buffer(path, Some("/vault/old.md")), LoadStep::Load);
    assert_eq!(panel.selected, at(SectionKind::Soon, 0));
    assert_eq!(panel.ensure_buffer(None, path), LoadStep::Forget);
    assert!(panel.backlog.is_empty() && !panel.has_buffer);
    assert_eq!(panel.selected, None);
    assert_eq!(panel.ensure_buffer(None, None), LoadStep::Nothing);
    assert_eq!(panel.ensure_buffer(path, None), LoadStep::Load);
}

#[test]
fn only_open_tasks_are_completed() {
    let mut panel = panel();
    assert!(panel.complete_selected_task().is_none());
    panel.selected = at(SectionKind::Soon, 1);
    let (section, task) = panel.complete_selected_task().unwrap();
    assert_eq!((section, task.text.as_str()), (SectionKind::Soon, "two"));
    panel.selected = at(SectionKind::Completed, 0);
    assert!(panel.complete_selected_task().is_none());
}

#[test]
fn edits_start_without_the_hidden_comment() {
    let mut panel = panel();
    panel.selected = at(SectionKind::Soon, 0);
    let target = panel.edit_selected_task().unwrap();
    let text = panel.backlog.soon[0].text.clone();
    assert_eq!(panel.start_edit(target, &text), ("one".to_string(), None));
    assert!(panel.edit.is_some());
    assert!(panel.cancel());
    assert!(!panel.cancel());
    let target = EditTarget::New { section: SectionKind::Soon };
    assert_eq!(panel.start_edit(target, ""), (String::new(), Some("New task")));
}

#[test]
fn copying_lights_the_row() {
    let mut panel = panel();
    assert_eq!(panel.copy_selected_task(None), None);
    panel.selected = at(SectionKind::Soon, 1);
    assert_eq!(panel.copy_selected_task(None).as_deref(), Some("\n- [ ] two"));
    assert_eq!(panel.copy_flash, at(SectionKind::Soon, 1));
    let from_file = Some("- [ ] two\n  - child\n");
    assert_eq!(
        panel.copy_selected_task(from_file).as_deref(),
        Some("\n- [ ] two\n  - child")
    );
}

#[test]
fn a_note_made_without_the_template_is_told() {
    assert_eq!(
        note_created(true),
        Some("The daily template is missing, so today's note was created empty.")
    );
    assert_eq!(note_created(false), None);
}

#[test]
fn stale_tasks_are_told_and_left_alone() {
    assert_eq!(rename_step(true, true), RenameStep::Write);
    assert_eq!(
        rename_step(true, false),
        RenameStep::Message("That task changed outside the panel, so the edit wasn't applied.")
    );
    assert_eq!(
        rename_step(false, false),
        RenameStep::Message("backlog.md is no longer open, so the edit wasn't applied.")
    );
    assert_eq!(
        move_step(SectionKind::Soon, true, false),
        MoveStep::Message("That task changed outside the panel, so it wasn't moved.")
    );
    assert_eq!(
        move_step(SectionKind::Soon, true, true),
        MoveStep::Move(SectionKind::Someday)
    );
    assert_eq!(
        move_step(SectionKind::Someday, true, true),
        MoveStep::Move(SectionKind::Soon)
    );
    assert_eq!(move_step(SectionKind::Soon, false, true), MoveStep::Nothing);
    assert_eq!(move_step(SectionKind::Completed, true, true), MoveStep::Nothing);
}

#[test]
fn new_tasks_go_into_the_open_file_or_a_new_one() {
    assert_eq!(append_step(true, true), AppendStep::Edit);
    assert_eq!(append_step(false, true), AppendStep::Create);
    assert_eq!(append_step(false, false), AppendStep::Nothing);
    assert_eq!(write_failed(BacklogWrite::Update, "full"), "Couldn't update backlog.md: full");
    assert_eq!(
        write_failed(BacklogWrite::Add, "full"),
        "Couldn't add the task to backlog.md: full"
    );
    assert_eq!(write_failed(BacklogWrite::Create, "full"), "Couldn't create backlog.md: full");
}
