use std::collections::BTreeMap;
use thock::calendar::{CalendarConfig, Divergence};
use thock::calendar_service::{
    append_entries, before_fetch, connect_changes, divergence_entry, entry_name, picker_changes,
    sync_note, take_fresh, CalendarListEntry, CalendarPicker, NoteSync,
};
use thock::gmail::{
    scan_backlog_markers, thread_marker_id, GmailConfig, MappingFetched, SyncMapping,
};
use thock::gmail_service::{
    count_notes, hold_reason, imported_digests, landing_steps, pending_block, plan_mappings,
    scan_folder, skip_list, stem_of_note, vault_digests, DirScan, FolderFile, LandingStep,
};
use thock::inbox::{
    capture_digest, plan_inbox_capture, scan_triage_log_markers, CapturedItem, InboxConfig,
    InboxFetched,
};
use thock::inbox_service::{
    has_sources, inbox_steps, landing_zone, poll_outcome, queue_changed, scan_inbox, Collected,
    SourceAnswer,
};
use thock::moments::Moment;
use thock::sync::{
    after_apply, after_wait, announcement, config_changed, BufferStep, Feature, Loaded,
    SyncOutcome, SyncService, SyncState,
};
use thock::synced_line::{CalendarEvent, EventKind};
use thock::toml_file::update_config_text;

const ACCOUNT: &str = "diego@example.com";
const AT: &str = "2026-08-18T09:31:00-07:00";
const GMAIL_STATE: &str = ".thock/state/gmail/imported.jsonl";
const INBOX_STATE: &str = ".thock/state/inbox/imported.jsonl";

/// The files of a vault, by their paths.
type Files = BTreeMap<String, String>;

fn folder(files: &Files, dir: &str) -> Vec<FolderFile> {
    let prefix = format!("{dir}/");
    files
        .iter()
        .filter_map(|(path, content)| {
            let name = path.strip_prefix(&prefix)?;
            Some(FolderFile { name: name.to_string(), content: Some(content.clone()) })
        })
        .collect()
}

fn text(files: &Files, path: &str) -> String {
    files.get(path).cloned().unwrap_or_default()
}

fn apply(files: &mut Files, steps: Vec<LandingStep>, state: &str) {
    for step in steps {
        match step {
            LandingStep::CreateNote(path, content) => {
                assert!(files.insert(path.clone(), content).is_none(), "{path} was there");
            }
            LandingStep::AddToBacklog(lines) => {
                let mut backlog = text(files, "backlog.md");
                if backlog.is_empty() {
                    backlog.push_str("# Backlog\n");
                }
                let block = pending_block(&backlog, &lines);
                if !block.is_empty() {
                    backlog.push_str(&block);
                    backlog.push('\n');
                }
                files.insert("backlog.md".to_string(), backlog);
            }
            LandingStep::Record(entries) => {
                let next = append_entries(&text(files, state), &entries);
                files.insert(state.to_string(), next);
            }
        }
    }
}

fn email(thread_id: &str, title: &str, body: &str) -> CapturedItem {
    CapturedItem {
        source: "gmail",
        external_id: thread_id.to_string(),
        title: title.to_string(),
        from: Some("Ana <ana@example.com>".to_string()),
        url: None,
        link: Some(format!("https://mail.google.com/mail/u/diego@example.com/#all/{thread_id}")),
        body: Some(body.to_string()),
        // 2026-08-18 09:30, seven hours west.
        occurred_at: Some(Moment { seconds: 1787070600, nanos: 0, offset: -7 * 3600 }),
        due: None,
    }
}

fn mappings() -> Vec<SyncMapping> {
    GmailConfig::default().mappings
}

/// One poll of the mail, with the digests that the transport is told to skip.
fn mail_poll(files: &mut Files, items: Vec<Vec<CapturedItem>>) -> Vec<String> {
    let mappings = mappings();
    let dirs: Vec<DirScan> =
        mappings.iter().map(|m| scan_folder(&folder(files, &m.path), true)).collect();
    let markers = scan_backlog_markers(&text(files, "backlog.md"));
    let triaged = scan_triage_log_markers(&text(files, "archives/inbox/triage-log.md"));
    let imported = imported_digests(&text(files, GMAIL_STATE));
    let digests = vault_digests(&dirs, &triaged, &markers);
    let skip = skip_list(&imported, &digests, &markers);
    let fetched: Vec<MappingFetched> = items.into_iter().map(MappingFetched::Items).collect();
    let (plans, missing) =
        plan_mappings(&mappings, &fetched, &dirs, ACCOUNT, &imported, &digests, AT);
    assert!(missing.is_empty());
    let steps = landing_steps(&plans, &mappings, &dirs, &markers, AT);
    apply(files, steps, GMAIL_STATE);
    skip
}

#[test]
fn mapped_capture_lands_notes_and_the_backlog_line() {
    let mut files = Files::new();
    let items = || {
        vec![
            vec![email("t-invoice", "Invoice #4821", "Pay up.")],
            vec![email("t-idea", "An idea from the road", "Two thoughts.")],
        ]
    };
    mail_poll(&mut files, items());

    // The backlog mapping landed an archive note…
    let digest = capture_digest(ACCOUNT, "gmail", "t-invoice");
    let archive = text(&files, "archives/emails/2026-08-18-0930-invoice-4821.md");
    assert!(archive.contains(&format!("capture:  {digest}")), "{archive}");
    assert!(archive.contains("from:     Ana <ana@example.com>"), "{archive}");
    assert!(archive.contains("Pay up."), "{archive}");
    // …and its line, linked to the archive and marked.
    let backlog = text(&files, "backlog.md");
    assert!(backlog.starts_with("# Backlog\n"), "{backlog}");
    assert!(
        backlog.contains(&format!(
            "- [ ] Invoice #4821 [[2026-08-18-0930-invoice-4821]] <!--gmail:{digest}-->"
        )),
        "{backlog}"
    );
    // The inbox mapping landed a plain note and touched nothing else.
    let inbox_note = text(&files, "inbox/2026-08-18-0930-an-idea-from-the-road.md");
    assert!(inbox_note.contains("Two thoughts."), "{inbox_note}");
    assert!(!backlog.contains("An idea from the road"), "{backlog}");

    // The state recorded both, with their mapping paths.
    let state = text(&files, GMAIL_STATE);
    assert_eq!(state.lines().count(), 2);
    assert!(state.contains("\"path\":\"archives/emails\""), "{state}");
    assert!(state.contains("\"path\":\"inbox\""), "{state}");

    // The next poll passes every digest to the transport and changes nothing.
    let before = files.clone();
    let skip = mail_poll(&mut files, items());
    assert_eq!(files, before);
    assert!(skip.contains(&digest));
}

#[test]
fn legacy_v9_records_and_state_loss_never_duplicate() {
    let mut files = Files::new();
    // An old archive with `thread:` frontmatter and its old-digest line.
    let legacy_digest = thread_marker_id(ACCOUNT, "t-legacy");
    files.insert(
        "archives/emails/2026-08-01-old-invoice.md".to_string(),
        format!("---\nsubject: Old invoice\nthread: {legacy_digest}\n---\n\n# Old invoice\n"),
    );
    files.insert(
        "backlog.md".to_string(),
        format!(
            "# Backlog\n\n## Soon\n\n## Someday\n\n\
             - [ ] Old invoice [[2026-08-01-old-invoice]] <!--gmail:{legacy_digest}-->\n\n\
             ## Completed\n"
        ),
    );
    let items = || vec![vec![email("t-new", "Fresh thing", "body")], vec![]];
    // The transport is told about the legacy digest, and the fresh thread is
    // captured.
    let skip = mail_poll(&mut files, items());
    assert!(skip.contains(&legacy_digest));
    let backlog = text(&files, "backlog.md");
    assert!(backlog.contains("- [ ] Fresh thing [["), "{backlog}");
    assert_eq!(backlog.matches("Old invoice [[").count(), 1, "{backlog}");

    // The state file vanishes: the notes and markers keep every capture from
    // duplicating.
    files.remove(GMAIL_STATE).unwrap();
    mail_poll(&mut files, items());
    assert_eq!(text(&files, "backlog.md"), backlog);
}

#[test]
fn crash_between_landing_and_append_is_repaired() {
    let mut files = Files::new();
    // The landed note exists, but neither the backlog line nor the state made
    // it.
    let digest = capture_digest(ACCOUNT, "gmail", "t-invoice");
    files.insert(
        "archives/emails/2026-08-18-0930-invoice-4821.md".to_string(),
        format!(
            "---\nsource:   gmail\ncapture:  {digest}\n\
             captured: 2026-08-18T09:31:00-07:00\ntitle:    Invoice #4821\n---\n\n\
             # Invoice #4821\n\nPay up.\n"
        ),
    );
    let items = || vec![vec![email("t-invoice", "Invoice #4821", "Pay up.")], vec![]];
    mail_poll(&mut files, items());
    // One line appended, no second file, state repaired.
    let backlog = text(&files, "backlog.md");
    assert_eq!(
        backlog
            .matches(&format!(
                "- [ ] Invoice #4821 [[2026-08-18-0930-invoice-4821]] <!--gmail:{digest}-->"
            ))
            .count(),
        1,
        "{backlog}"
    );
    let state = text(&files, GMAIL_STATE);
    assert!(state.contains(&digest), "{state}");
    assert_eq!(folder(&files, "archives/emails").len(), 1);

    // And it converges: another restart appends nothing new.
    mail_poll(&mut files, items());
    assert_eq!(text(&files, "backlog.md"), backlog);
}

#[test]
fn missing_labels_hold_with_their_names() {
    let mappings = mappings();
    let dirs = [scan_folder(&[], true), scan_folder(&[], true)];
    let fetched = [MappingFetched::LabelNotFound, MappingFetched::Items(Vec::new())];
    let (plans, missing) = plan_mappings(&mappings, &fetched, &dirs, ACCOUNT, &[], &[], AT);
    assert_eq!(count_notes(&plans), 0);
    let reason = hold_reason(&missing).unwrap();
    assert!(reason.contains("thock/backlog"), "{reason}");
    assert_eq!(hold_reason(&[]), None);
    assert_eq!(
        hold_reason(&["a".to_string(), "b".to_string()]).unwrap(),
        "labels \"a\", \"b\" not found in Gmail"
    );
    assert_eq!(hold_reason(&["a".to_string()]).unwrap(), "label \"a\" not found in Gmail");
}

fn item(id: &str, title: &str) -> CapturedItem {
    CapturedItem {
        source: "google-tasks",
        external_id: id.to_string(),
        title: title.to_string(),
        from: None,
        url: Some("https://example.com/ship-it".to_string()),
        link: None,
        body: None,
        occurred_at: None,
        due: None,
    }
}

/// One poll of the inbox, with the digests that the sources are told to skip.
fn inbox_poll(files: &mut Files, answers: Vec<SourceAnswer>) -> (Vec<String>, SyncOutcome) {
    let log = files.get("archives/inbox/triage-log.md").cloned();
    let scan = scan_inbox(&folder(files, "inbox"), log.as_deref());
    let imported = imported_digests(&text(files, INBOX_STATE));
    let skip = skip_list(&imported, &scan.digests, &[]);
    let mut collected = Collected::new();
    for answer in answers {
        if !collected.take(answer) {
            return (skip, SyncOutcome::AuthRevoked);
        }
    }
    let plan = plan_inbox_capture(
        &collected.items,
        ACCOUNT,
        &imported,
        &scan.digests,
        &scan.stems,
        &InboxConfig::default(),
        AT,
    );
    let captured = plan.files.len();
    apply(files, inbox_steps(&plan, AT), INBOX_STATE);
    (skip, poll_outcome(collected.failed, collected.holding, captured))
}

fn fetched(items: Vec<CapturedItem>) -> Vec<SourceAnswer> {
    vec![SourceAnswer::Fetched(InboxFetched::Items(items))]
}

#[test]
fn capture_lands_notes_and_dedups_across_polls() {
    let mut files = Files::new();
    let items = || fetched(vec![item("task-1", "Ship it"), item("task-2", "Call back")]);
    let (_, outcome) = inbox_poll(&mut files, items());
    assert_eq!(outcome, SyncOutcome::Synced { captured: 2 });

    // Two notes landed, frontmattered, and the state recorded both.
    let notes = folder(&files, "inbox");
    assert_eq!(notes.len(), 2);
    let digest = capture_digest(ACCOUNT, "google-tasks", "task-1");
    let ship = notes.iter().find(|note| note.name.contains("ship-it")).expect("ship-it note");
    let content = ship.content.as_deref().unwrap();
    assert!(content.contains(&format!("capture:  {digest}")), "{content}");
    assert!(content.contains("url:      https://example.com/ship-it"), "{content}");
    assert_eq!(text(&files, INBOX_STATE).lines().count(), 2);
    assert_eq!(scan_inbox(&notes, None).depth, 2);

    // The next poll passes the digests to the source and writes nothing.
    let before = files.clone();
    let (skip, outcome) = inbox_poll(&mut files, items());
    assert_eq!(outcome, SyncOutcome::Synced { captured: 0 });
    assert_eq!(files, before);
    assert!(skip.contains(&digest));
}

fn service() -> SyncService<CalendarConfig> {
    let mut service = SyncService::new();
    let config = CalendarConfig::with_planner_heading("Day planner");
    assert!(service.reload(Loaded::Account(config), "unreadable"));
    service.built(Ok(true));
    service
}

#[test]
fn only_a_manual_sync_announces_completion() {
    let mut service = service();
    let synced = |captured: usize| SyncOutcome::Synced { captured };
    // The background poll captured an item but stayed quiet.
    let (go_on, delay, message) = service.finish_sync(Feature::Inbox, synced(1), 300, 300, 7);
    assert_eq!((go_on, delay, message), (true, 300, None));
    assert_eq!(service.state(), &SyncState::Synced { at: 7 });

    // A manual sync announces what it found.
    assert!(service.sync_now());
    let (_, _, message) = service.finish_sync(Feature::Inbox, synced(1), 300, 300, 8);
    assert_eq!(message.as_deref(), Some("Inbox synced — 1 new item"));

    // And only that one sync: the poll loop it restarted stays quiet.
    let (_, _, message) = service.finish_sync(Feature::Inbox, synced(1), 300, 300, 9);
    assert_eq!(message, None);
}

#[test]
fn state_loss_is_repaired_from_frontmatter_not_duplicated() {
    let mut files = Files::new();
    let items = || fetched(vec![item("task-1", "Ship it")]);
    inbox_poll(&mut files, items());
    assert_eq!(folder(&files, "inbox").len(), 1);
    let before = files.clone();

    // The state file vanishes. The note's frontmatter keeps the capture from
    // duplicating and the state is repaired.
    files.remove(INBOX_STATE).unwrap();
    inbox_poll(&mut files, items());
    assert_eq!(folder(&files, "inbox").len(), 1);
    assert_eq!(files, before);
    assert_eq!(text(&files, INBOX_STATE).lines().count(), 1);

    // A triaged item (file deleted, log line written) stays captured through
    // the log's marker even with the state gone again.
    let digest = capture_digest(ACCOUNT, "google-tasks", "task-1");
    files.retain(|path, _| !path.starts_with("inbox/"));
    files.insert(
        "archives/inbox/triage-log.md".to_string(),
        format!("- 2026-08-23 · Ship it → Backlog · Someday <!--inbox:{digest}-->\n"),
    );
    files.remove(INBOX_STATE).unwrap();
    inbox_poll(&mut files, items());
    assert!(folder(&files, "inbox").is_empty());

    // A fresh item still captures alongside all that history.
    inbox_poll(
        &mut files,
        fetched(vec![item("task-1", "Ship it"), item("task-9", "Another thing")]),
    );
    let notes = folder(&files, "inbox");
    assert_eq!(notes.len(), 1);
    assert!(notes[0].name.contains("another-thing"));
}

#[test]
fn holding_source_reports_without_blocking_the_other() {
    let mut files = Files::new();
    let answers = vec![
        SourceAnswer::Fetched(InboxFetched::Holding(
            "label \"thock/inbox\" not found in Gmail".to_string(),
        )),
        SourceAnswer::Fetched(InboxFetched::Items(vec![item("task-1", "Ship it")])),
    ];
    let (_, outcome) = inbox_poll(&mut files, answers);
    // The healthy source's capture landed, and the holding source's reason is
    // what is reported.
    assert_eq!(folder(&files, "inbox").len(), 1);
    let SyncOutcome::Held(reason) = outcome else {
        panic!("expected holding, got {outcome:?}");
    };
    assert!(reason.contains("thock/inbox"), "{reason}");
    let (_, outcome) = inbox_poll(&mut files, vec![SourceAnswer::AuthRevoked]);
    assert_eq!(outcome, SyncOutcome::AuthRevoked);
    let failed = vec![SourceAnswer::Failed("503".to_string())];
    assert_eq!(inbox_poll(&mut files, failed).1, SyncOutcome::Failed("503".to_string()));
}

fn standup(start: u32, end: u32) -> CalendarEvent {
    CalendarEvent {
        id: "aaaaaaaaaaaa".to_string(),
        title: "Standup".to_string(),
        time: Some((start, end)),
        kind: EventKind::Default,
    }
}

fn synced_text(text: &str, events: &[CalendarEvent]) -> String {
    let config = CalendarConfig::with_planner_heading("Day planner");
    match sync_note(text, events, &config) {
        NoteSync::Held(reason) => panic!("held: {reason}"),
        NoteSync::Synced { text: next, .. } => next.unwrap_or(text.to_string()),
    }
}

#[test]
fn full_sync_into_a_temp_vault() {
    // The first sync creates the section inside the planner section and
    // inserts the meeting.
    let text = synced_text("# Monday\n\n## Day planner\n\n- [ ] Workout\n", &[standup(600, 630)]);
    assert_eq!(
        text,
        "# Monday\n\n## Day planner\n\n- [ ] Workout\n\n### Calendar\n\n\
         - [ ] 10:00 - 10:30 Standup <!--gcal:aaaaaaaaaaaa-->\n"
    );

    // The user ticks the meeting off; the meeting also moves. The next poll
    // corrects the time and keeps the checkmark.
    let ticked = text.replace("- [ ] 10:00 - 10:30 Standup", "- [x] 10:00 - 10:30 Standup");
    let text = synced_text(&ticked, &[standup(660, 690)]);
    assert!(
        text.contains("- [x] 11:00 - 11:30 Standup <!--gcal:aaaaaaaaaaaa-->"),
        "checkbox lost or time not corrected:\n{text}"
    );

    // A vanished event is marked, never deleted.
    let text = synced_text(&text, &[]);
    assert!(
        text.contains("- [x] 11:00 - 11:30 ~~Standup~~ (cancelled) <!--gcal:aaaaaaaaaaaa-->"),
        "cancellation not marked:\n{text}"
    );
}

#[test]
fn a_note_without_a_planner_holds() {
    let config = CalendarConfig::with_planner_heading("Day planner");
    assert!(matches!(sync_note("# Journal\n", &[standup(600, 630)], &config), NoteSync::Held(_)));
    assert_eq!(before_fetch(false, 1, false, true), Some(SyncOutcome::Aborted));
    assert_eq!(before_fetch(true, 1, false, true), None);
    assert!(matches!(before_fetch(true, 0, false, true), Some(SyncOutcome::Held(_))));
}

#[test]
fn divergences_are_logged_once_each() {
    let divergence = || Divergence {
        id: "aaaaaaaaaaaa".to_string(),
        line: "- [ ] Coffee \"x\"".to_string(),
        event_title: "Standup".to_string(),
    };
    let mut logged = Vec::new();
    assert_eq!(take_fresh(vec![divergence(), divergence()], &mut logged).len(), 1);
    assert!(take_fresh(vec![divergence()], &mut logged).is_empty());
    let entry = divergence_entry(&divergence(), "2026-08-18T09:31:00Z");
    let value: serde_json::Value = serde_json::from_str(&entry).unwrap();
    assert_eq!(value["line"], "- [ ] Coffee \"x\"");
    assert_eq!(append_entries("", &[entry.clone()]), format!("{entry}\n"));
    assert_eq!(append_entries("{}\n", &[entry.clone()]), format!("{{}}\n{entry}\n"));
}

#[test]
fn connecting_writes_the_settings_and_keeps_the_calendars() {
    let files = connect_changes("me@example.com", vec![]);
    let calendar = files.iter().find(|f| f.file == "calendar.toml").unwrap();
    let fresh = update_config_text("", &calendar.changes).unwrap();
    assert!(fresh.contains("calendars"), "{fresh}");
    let google = files.iter().find(|f| f.file == "google.toml").unwrap();
    let text = update_config_text("future = 1\n", &google.changes).unwrap();
    let table = text.parse::<toml::Table>().unwrap();
    assert_eq!(table["account"].as_str(), Some("me@example.com"));
    assert_eq!(table["future"].as_integer(), Some(1));
    assert_eq!(update_config_text("not [valid", &google.changes), None);
    let picked = picker_changes(vec!["a".to_string(), "b".to_string()]);
    let text = update_config_text("calendars = [\"old\"]\n", &picked.changes).unwrap();
    let table = text.parse::<toml::Table>().unwrap();
    let ids: Vec<&str> =
        table["calendars"].as_array().unwrap().iter().filter_map(|v| v.as_str()).collect();
    assert_eq!(ids, ["a", "b"]);
}

#[test]
fn the_calendar_picker_toggles_what_it_shows() {
    let entry = |id: &str, summary: &str| CalendarListEntry {
        id: id.to_string(),
        summary: summary.to_string(),
        primary: false,
    };
    let mut picker = CalendarPicker::new(
        vec![entry("me@example.com", "Me"), entry("team", "TEAM"), entry("quiet", "")],
        vec!["me@example.com".to_string()],
    );
    picker.update_matches("Team");
    assert_eq!(picker.matches, [1]);
    picker.confirm();
    assert_eq!(picker.chosen(), ["me@example.com", "team"]);
    picker.confirm();
    assert_eq!(picker.chosen(), ["me@example.com"]);
    assert_eq!(entry_name(&picker.entries[2]), "quiet");
}

#[test]
fn failures_back_off_up_to_a_ceiling() {
    let mut service = service();
    let failed = || SyncOutcome::Failed("offline".to_string());
    let (go_on, delay, _) = service.finish_sync(Feature::Gmail, failed(), 300, 300, 1);
    assert_eq!((go_on, delay), (true, 600));
    assert_eq!(service.state(), &SyncState::Failing { error: "offline".to_string() });
    assert_eq!(service.finish_sync(Feature::Gmail, failed(), 300, 2400, 1).1, 3600);
    let (go_on, _, _) = service.finish_sync(Feature::Gmail, SyncOutcome::AuthRevoked, 300, 300, 1);
    assert!(!go_on);
    assert_eq!(service.state(), &SyncState::Disconnected);
    assert_eq!(announcement(Feature::Gmail, &SyncOutcome::Aborted), None);
}

#[test]
fn reloading_follows_the_files() {
    let mut service = service();
    let config = || CalendarConfig::with_planner_heading("Day planner");
    // The same settings change nothing.
    assert!(!service.reload(Loaded::Account(config()), "unreadable"));
    service.reload(Loaded::Unreadable, "calendar.toml couldn't be read");
    assert!(matches!(service.state(), SyncState::Failing { .. }));
    service.reload(Loaded::NoConfig, "");
    assert_eq!(service.state(), &SyncState::NoConfig);
    assert!(service.has_vault() && !service.has_config());
    service.reload(Loaded::NoVault, "");
    assert!(!service.has_vault());
    assert!(config_changed(&[".thock/calendar.toml".to_string()], "calendar.toml"));
    assert!(!config_changed(&["notes/calendar.toml".to_string()], "calendar.toml"));
}

#[test]
fn open_notes_wait_for_quiet() {
    assert_eq!(after_wait(0, false), BufferStep::Wait);
    assert_eq!(after_wait(1, false), BufferStep::Wait);
    assert_eq!(after_wait(1, true), BufferStep::Apply);
    assert_eq!(after_wait(15, false), BufferStep::Apply);
    assert_eq!(after_apply(1, false), BufferStep::Apply);
    assert_eq!(after_apply(3, false), BufferStep::GiveUp);
    assert_eq!(after_apply(1, true), BufferStep::Done);
}

#[test]
fn notes_are_told_by_their_names() {
    assert_eq!(stem_of_note("a.b.md").as_deref(), Some("a.b"));
    assert_eq!(stem_of_note(".hidden.md"), None);
    assert_eq!(stem_of_note("a.txt"), None);
    assert!(queue_changed(&["inbox/a.md".to_string()], "inbox"));
    assert!(!queue_changed(&["inboxes/a.md".to_string()], "inbox"));
    assert!(has_sources(&InboxConfig::default()));
    assert_eq!(landing_zone(&None), "inbox");
}
