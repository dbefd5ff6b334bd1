use thock::calendar::{
    event_marker_id, resolve_calendar_config, sanitize_title, CalendarConfig, CalendarConfigContent, Divergence,
    FiltersContent, GoogleClientOverride, LineEdit, LineEditKind, Reconciled,
};
use thock::reconcile::{apply_line_edits, reconcile};
use thock::synced_line::{
    line_event_kind, parse_marker_payload, CalendarEvent, EventKind, SyncedLine,
};

fn config() -> CalendarConfig {
    CalendarConfig::with_planner_heading("Day planner")
}

fn text(table: &toml::Table, key: &str) -> Option<String> {
    table.get(key).and_then(|v| v.as_str()).map(str::to_string)
}

fn flag(table: Option<&toml::Table>, key: &str) -> Option<bool> {
    table.and_then(|t| t.get(key)).and_then(|v| v.as_bool())
}

fn parse_calendar_config(raw: &str, planner_heading: &str) -> Option<CalendarConfig> {
    let table = raw.parse::<toml::Table>().ok()?;
    let filters = table.get("filters").and_then(|v| v.as_table());
    let google = table.get("google").and_then(|v| v.as_table());
    let content = CalendarConfigContent {
        account: text(&table, "account"),
        calendars: table.get("calendars").and_then(|v| v.as_array()).map(|list| {
            list.iter().filter_map(|v| v.as_str()).map(str::to_string).collect()
        }),
        section: text(&table, "section"),
        poll_seconds: table.get("poll_seconds").and_then(|v| v.as_integer()).map(|n| n as u64),
        filters: FiltersContent {
            accepted_only: flag(filters, "accepted_only"),
            include_solo: flag(filters, "include_solo"),
            all_day: flag(filters, "all_day"),
            private_busy: flag(filters, "private_busy"),
        },
        google: GoogleClientOverride {
            client_id: google.and_then(|t| text(t, "client_id")),
            client_secret: google.and_then(|t| text(t, "client_secret")),
        },
    };
    Some(resolve_calendar_config(content, planner_heading))
}

fn event(id: &str, title: &str, start: u32, end: u32) -> CalendarEvent {
    CalendarEvent {
        id: id.to_string(),
        title: title.to_string(),
        time: Some((start, end)),
        kind: EventKind::Default,
    }
}

fn focus_event(id: &str, title: &str, start: u32, end: u32) -> CalendarEvent {
    CalendarEvent { kind: EventKind::FocusTime, ..event(id, title, start, end) }
}

fn all_day(id: &str, title: &str) -> CalendarEvent {
    CalendarEvent {
        id: id.to_string(),
        title: title.to_string(),
        time: None,
        kind: EventKind::Default,
    }
}

fn run(note: &str, events: &[CalendarEvent]) -> (String, Vec<Divergence>) {
    match reconcile(note, events, &config()) {
        Reconciled::NoPlannerSection => panic!("unexpected NoPlannerSection"),
        Reconciled::Edits { edits, diverged } => (apply_line_edits(note, &edits), diverged),
    }
}

#[test]
fn config_defaults_and_clamping() {
    let parsed = parse_calendar_config("", "Day planner").unwrap();
    assert_eq!(parsed, config());

    let parsed = parse_calendar_config(
        "schema = 1\naccount = \"diego@example.com\"\ncalendars = [\"primary\"]\n\
         section = \"Meetings\"\npoll_seconds = 5\n\n[filters]\nall_day = true\n\
         \n[google]\nclient_id = \"me\"\n\nfuture_key = 1\n",
        "Plan",
    )
    .unwrap();
    assert_eq!(parsed.account.as_deref(), Some("diego@example.com"));
    assert_eq!(parsed.calendars, vec!["primary"]);
    assert_eq!(parsed.section, "Meetings");
    assert_eq!(parsed.poll_interval, 60);
    assert!(parsed.filters.all_day);
    assert!(parsed.filters.accepted_only);
    assert_eq!(parsed.google.client_id.as_deref(), Some("me"));
    assert_eq!(parsed.planner_heading, "Plan");

    assert_eq!(
        parse_calendar_config("poll_seconds = 999999", "x")
            .unwrap()
            .poll_interval,
        3600
    );
    assert!(parse_calendar_config("not [valid", "x").is_none());
}

#[test]
fn marker_id_is_short_stable_hex() {
    let id = event_marker_id("primary", "abc123");
    assert_eq!(id.len(), 12);
    assert!(id.chars().all(|c| c.is_ascii_hexdigit()));
    assert_eq!(id, event_marker_id("primary", "abc123"));
    assert_ne!(id, event_marker_id("other", "abc123"));
    assert_ne!(id, event_marker_id("primary", "abc124"));
}

#[test]
fn focus_time_lines_carry_their_kind_in_the_marker() {
    let note = "# Day planner\n\n## Calendar\n\n";
    let (applied, _) = run(note, &[focus_event("aaaaaaaaaaaa", "Focus time", 540, 1020)]);
    assert!(
        applied.contains("- [ ] 09:00 - 17:00 Focus time <!--gcal:aaaaaaaaaaaa:focus-->"),
        "{applied}"
    );
    assert_eq!(
        line_event_kind("- [ ] 09:00 - 17:00 Focus time <!--gcal:aaaaaaaaaaaa:focus-->"),
        EventKind::FocusTime
    );
    assert_eq!(
        line_event_kind("- [ ] 10:00 - 10:30 Standup <!--gcal:aaaaaaaaaaaa-->"),
        EventKind::Default
    );
    assert_eq!(line_event_kind("- [ ] A task of my own"), EventKind::Default);
}

#[test]
fn an_existing_line_gets_its_kind_added_without_touching_the_text() {
    // Written by a build that didn't know about event types, and renamed
    // by the user since — the marker still upgrades, the rename survives.
    let note = "# Day planner\n\n## Calendar\n\n\
                - [x] 09:00 - 17:00 Focus time (deep work) <!--gcal:aaaaaaaaaaaa-->\n";
    let (applied, diverged) = run(note, &[focus_event("aaaaaaaaaaaa", "Focus time", 540, 1020)]);
    assert_eq!(
        applied,
        "# Day planner\n\n## Calendar\n\n\
         - [x] 09:00 - 17:00 Focus time (deep work) <!--gcal:aaaaaaaaaaaa:focus-->\n"
    );
    assert!(diverged.is_empty());
}

#[test]
fn an_unknown_marker_suffix_identifies_its_line_and_is_left_alone() {
    let note = "# Day planner\n\n## Calendar\n\n\
                - [ ] 10:00 - 10:30 Standup <!--gcal:aaaaaaaaaaaa:brunch-->\n";
    let (applied, _) = run(note, &[event("aaaaaaaaaaaa", "Standup", 600, 630)]);
    assert_eq!(applied, note, "no duplicate insert, no marker rewrite");
}

#[test]
fn a_malformed_marker_is_not_a_synced_line() {
    for payload in ["", "zz:focus", "aaaaaaaaaaaa:", "aaaaaaaaaaaa:Focus"] {
        assert_eq!(parse_marker_payload(payload), None, "{payload:?}");
    }
    assert_eq!(
        parse_marker_payload("aaaaaaaaaaaa"),
        Some(("aaaaaaaaaaaa".to_string(), None))
    );
    assert_eq!(
        parse_marker_payload("aaaaaaaaaaaa:focus"),
        Some(("aaaaaaaaaaaa".to_string(), Some("focus".to_string())))
    );
}

#[test]
fn missing_planner_heading_holds() {
    let result = reconcile("# Journal\n", &[event("aaaaaaaaaaaa", "T", 600, 630)], &config());
    assert_eq!(result, Reconciled::NoPlannerSection);
}

#[test]
fn no_events_never_creates_the_section() {
    let note = "# Day planner\n\n- [ ] Workout\n";
    let (applied, _) = run(note, &[]);
    assert_eq!(applied, note);
}

#[test]
fn first_sync_creates_the_section_last_with_blank_lines() {
    let note = "# Monday\n\n# Day planner\n\n- [ ] Workout\n\n# Personal\n- [ ] Call home\n";
    let (applied, _) = run(
        note,
        &[
            event("bbbbbbbbbbbb", "1:1 Ramon", 870, 930),
            event("aaaaaaaaaaaa", "API Leads meeting", 600, 630),
        ],
    );
    assert_eq!(
        applied,
        "# Monday\n\n# Day planner\n\n- [ ] Workout\n\n## Calendar\n\n\
         - [ ] 10:00 - 10:30 API Leads meeting <!--gcal:aaaaaaaaaaaa-->\n\
         - [ ] 14:30 - 15:30 1:1 Ramon <!--gcal:bbbbbbbbbbbb-->\n\n\
         # Personal\n- [ ] Call home\n"
    );
}

#[test]
fn section_creation_at_end_of_file() {
    let note = "# Day planner\n- [ ] Workout";
    let (applied, _) = run(note, &[event("aaaaaaaaaaaa", "Standup", 570, 600)]);
    assert_eq!(
        applied,
        "# Day planner\n- [ ] Workout\n\n## Calendar\n\n\
         - [ ] 09:30 - 10:00 Standup <!--gcal:aaaaaaaaaaaa-->"
    );
}

#[test]
fn inserts_sort_among_synced_lines_without_reordering_them() {
    let note = "# Day planner\n\n## Calendar\n\n\
                - [x] 10:00 - 10:30 Standup <!--gcal:aaaaaaaaaaaa-->\n\
                some free text the user wrote\n\
                - [ ] 15:00 - 16:00 Review <!--gcal:cccccccccccc-->\n";
    let (applied, _) = run(
        note,
        &[
            event("aaaaaaaaaaaa", "Standup", 600, 630),
            event("cccccccccccc", "Review", 900, 960),
            event("bbbbbbbbbbbb", "Lunch", 720, 780),
            event("dddddddddddd", "Late sync", 1020, 1050),
            event("000000000000", "Early run", 420, 450),
        ],
    );
    assert_eq!(
        applied,
        "# Day planner\n\n## Calendar\n\n\
         - [ ] 07:00 - 07:30 Early run <!--gcal:000000000000-->\n\
         - [x] 10:00 - 10:30 Standup <!--gcal:aaaaaaaaaaaa-->\n\
         some free text the user wrote\n\
         - [ ] 12:00 - 13:00 Lunch <!--gcal:bbbbbbbbbbbb-->\n\
         - [ ] 15:00 - 16:00 Review <!--gcal:cccccccccccc-->\n\
         - [ ] 17:00 - 17:30 Late sync <!--gcal:dddddddddddd-->\n"
    );
}

#[test]
fn insert_after_the_last_synced_line_lands_below_its_sub_bullets() {
    let note = "# Day planner\n\n## Calendar\n\n\
                - [x] 10:00 - 10:30 Standup <!--gcal:aaaaaaaaaaaa-->\n\
                \t- prep the demo first\n";
    let (applied, _) = run(
        note,
        &[
            event("aaaaaaaaaaaa", "Standup", 600, 630),
            event("bbbbbbbbbbbb", "Review", 900, 960),
        ],
    );
    assert_eq!(
        applied,
        "# Day planner\n\n## Calendar\n\n\
         - [x] 10:00 - 10:30 Standup <!--gcal:aaaaaaaaaaaa-->\n\
         \t- prep the demo first\n\
         - [ ] 15:00 - 16:00 Review <!--gcal:bbbbbbbbbbbb-->\n"
    );
}

#[test]
fn level_six_planner_heading_never_creates_the_section() {
    let note = "###### Day planner\n\n- [ ] Workout\n";
    let events = [event("aaaaaaaaaaaa", "Standup", 600, 630)];
    let (applied, _) = run(note, &events);
    assert_eq!(applied, note);
    let (again, _) = run(&applied, &events);
    assert_eq!(again, applied);
}

#[test]
fn moved_event_replaces_the_time_token_only() {
    let note = "# Day planner\n\n## Calendar\n\n\
                \t* [x] 10:00 - 10:30 Standup with notes <!--gcal:aaaaaaaaaaaa-->\n";
    let (applied, diverged) = run(note, &[event("aaaaaaaaaaaa", "Standup", 660, 690)]);
    assert!(diverged.is_empty());
    // Indent, bullet style, checkbox, and the user's trailing text all
    // survive; only the token changed.
    assert!(applied.contains(
        "\t* [x] 11:00 - 11:30 Standup with notes <!--gcal:aaaaaaaaaaaa-->"
    ));
}

#[test]
fn renamed_line_is_frozen_and_reported() {
    let note = "# Day planner\n\n## Calendar\n\n\
                - [ ] 10:00 - 10:30 Coffee with the API folks <!--gcal:aaaaaaaaaaaa-->\n";
    // Even the time change is not applied once the title diverged.
    let (applied, diverged) = run(note, &[event("aaaaaaaaaaaa", "API Leads meeting", 660, 690)]);
    assert_eq!(applied, note);
    assert_eq!(diverged.len(), 1);
    assert_eq!(diverged[0].id, "aaaaaaaaaaaa");
    assert_eq!(diverged[0].event_title, "API Leads meeting");
}

#[test]
fn vanished_event_is_marked_cancelled_not_deleted() {
    let note = "# Day planner\n\n## Calendar\n\n\
                - [x] 10:00 - 10:30 Standup <!--gcal:aaaaaaaaaaaa-->\n";
    let (applied, _) = run(note, &[]);
    assert_eq!(
        applied,
        "# Day planner\n\n## Calendar\n\n\
         - [x] 10:00 - 10:30 ~~Standup~~ (cancelled) <!--gcal:aaaaaaaaaaaa-->\n"
    );
    // Marking again is a no-op.
    let (again, _) = run(&applied, &[]);
    assert_eq!(again, applied);
}

#[test]
fn recreated_event_unmarks_the_cancellation() {
    let note = "# Day planner\n\n## Calendar\n\n\
                - [x] 10:00 - 10:30 ~~Standup~~ (cancelled) <!--gcal:aaaaaaaaaaaa-->\n";
    let (applied, _) = run(note, &[event("aaaaaaaaaaaa", "Standup", 660, 690)]);
    assert_eq!(
        applied,
        "# Day planner\n\n## Calendar\n\n\
         - [x] 11:00 - 11:30 Standup <!--gcal:aaaaaaaaaaaa-->\n"
    );
}

#[test]
fn all_day_events_have_no_time_token() {
    let note = "# Day planner\n\n## Calendar\n\n\
                - [ ] 09:00 - 10:00 Planning <!--gcal:bbbbbbbbbbbb-->\n";
    let (applied, _) = run(
        note,
        &[
            all_day("aaaaaaaaaaaa", "Diego's birthday"),
            event("bbbbbbbbbbbb", "Planning", 540, 600),
        ],
    );
    assert_eq!(
        applied,
        "# Day planner\n\n## Calendar\n\n\
         - [ ] Diego's birthday <!--gcal:aaaaaaaaaaaa-->\n\
         - [ ] 09:00 - 10:00 Planning <!--gcal:bbbbbbbbbbbb-->\n"
    );
}

#[test]
fn hostile_titles_cannot_forge_markers() {
    let note = "# Day planner\n\n## Calendar\n";
    let (applied, _) = run(
        note,
        &[event("aaaaaaaaaaaa", "sneaky <!--gcal:ffffffffffff--> \n newline", 600, 630)],
    );
    assert!(applied.contains(
        "- [ ] 10:00 - 10:30 sneaky gcal:ffffffffffff--> newline <!--gcal:aaaaaaaaaaaa-->"
    ));
    // The line still round-trips to the real id.
    let reparsed = SyncedLine::parse(0, applied.lines().last().unwrap()).unwrap();
    assert_eq!(reparsed.id, "aaaaaaaaaaaa");
}

#[test]
fn section_heading_is_found_case_insensitively_and_by_config_name() {
    let mut config = config();
    config.section = "Meetings".to_string();
    let note = "# Day planner\n\n## MEETINGS\n\n- [ ] 10:00 - 10:30 Old <!--gcal:aaaaaaaaaaaa-->\n";
    let Reconciled::Edits { edits, .. } =
        reconcile(note, &[event("aaaaaaaaaaaa", "Old", 600, 630)], &config)
    else {
        panic!("expected edits");
    };
    assert!(edits.is_empty(), "{edits:?}");
}

#[test]
fn non_synced_content_in_the_section_is_opaque() {
    let note = "# Day planner\n\n## Calendar\n\nA note to self\n\
                - [ ] my own task\n- [ ] 08:00 not synced either\n";
    let (applied, _) = run(note, &[event("aaaaaaaaaaaa", "Standup", 570, 600)]);
    assert_eq!(
        applied,
        "# Day planner\n\n## Calendar\n\nA note to self\n\
         - [ ] my own task\n- [ ] 08:00 not synced either\n\
         - [ ] 09:30 - 10:00 Standup <!--gcal:aaaaaaaaaaaa-->\n"
    );
}

#[test]
fn duplicate_event_ids_are_deduped() {
    let note = "# Day planner\n\n## Calendar\n";
    let (applied, _) = run(
        note,
        &[
            event("aaaaaaaaaaaa", "Standup", 570, 600),
            event("aaaaaaaaaaaa", "Standup again", 600, 630),
        ],
    );
    assert_eq!(applied.matches("gcal:aaaaaaaaaaaa").count(), 1);
}

#[test]
fn apply_line_edits_orders_inserts_and_replaces() {
    let note = "a\nb\nc\n";
    let edits = vec![
        LineEdit {
            row: 1,
            kind: LineEditKind::Insert("x".to_string()),
        },
        LineEdit {
            row: 1,
            kind: LineEditKind::Insert("y".to_string()),
        },
        LineEdit {
            row: 1,
            kind: LineEditKind::Replace("B".to_string()),
        },
        LineEdit {
            row: 3,
            kind: LineEditKind::Insert("z".to_string()),
        },
    ];
    assert_eq!(apply_line_edits(note, &edits), "a\nx\ny\nB\nc\nz\n");
    assert_eq!(apply_line_edits("a\nb\nc", &edits), "a\nx\ny\nB\nc\nz");
}

#[test]
fn reconcile_is_idempotent() {
    let scenarios: Vec<(&str, Vec<CalendarEvent>)> = vec![
        ("# Day planner\n", vec![event("aaaaaaaaaaaa", "Standup", 570, 600)]),
        ("# Day planner\n- [ ] Workout", vec![]),
        (
            "# Day planner\n\n## Calendar\n\n- [x] 10:00 - 10:30 Standup <!--gcal:aaaaaaaaaaaa-->\n",
            vec![
                event("aaaaaaaaaaaa", "Standup", 660, 690),
                event("bbbbbbbbbbbb", "Lunch", 720, 780),
                all_day("cccccccccccc", "Holiday"),
            ],
        ),
        (
            "# Day planner\n\n## Calendar\n\n- [ ] 10:00 - 10:30 Renamed by me <!--gcal:aaaaaaaaaaaa-->\n",
            vec![event("aaaaaaaaaaaa", "Standup", 660, 690)],
        ),
        (
            "# Day planner\n\n## Calendar\n\n- [x] 10:00 - 10:30 Standup <!--gcal:aaaaaaaaaaaa-->\n\n## Misc\n- [ ] Errand\n",
            vec![],
        ),
        (
            "# Day planner\n\n## Calendar\n\n- [ ] 10:00 - 10:30 ~~Standup~~ (cancelled) <!--gcal:aaaaaaaaaaaa-->\n",
            vec![event("aaaaaaaaaaaa", "Standup", 600, 630)],
        ),
        (
            "# Monday\n# Day planner\n- [ ] Workout\n# Personal\n",
            vec![event("aaaaaaaaaaaa", "A", 600, 630), all_day("bbbbbbbbbbbb", "B")],
        ),
    ];
    for (note, events) in scenarios {
        let (applied, _) = run(note, &events);
        let Reconciled::Edits { edits, .. } = reconcile(&applied, &events, &config()) else {
            panic!("planner section vanished for {note:?}");
        };
        assert!(
            edits.is_empty(),
            "not idempotent for {note:?}:\napplied: {applied:?}\nedits: {edits:?}"
        );
    }
}

#[test]
fn a_nested_opening_leaves_no_comment_in_a_title() {
    let title = sanitize_title("Pay <!<!----gcal:beef-->\nnow");
    assert_eq!(title, "Pay gcal:beef--> now");
    assert!(!sanitize_title("<!<!<!------").contains("<!--"));
}

#[test]
fn words_of_the_users_own_outlive_a_cancellation() {
    let note = "# Day planner\n\n## Calendar\n\n\
                - [ ] 10:00 - 10:30 ~~Standup with notes~~ (cancelled) <!--gcal:aaaaaaaaaaaa-->\n";
    let (applied, diverged) = run(note, &[event("aaaaaaaaaaaa", "Standup", 660, 690)]);
    assert_eq!(
        applied,
        "# Day planner\n\n## Calendar\n\n\
         - [ ] 11:00 - 11:30 Standup with notes <!--gcal:aaaaaaaaaaaa-->\n"
    );
    assert!(diverged.is_empty());
}

#[test]
fn cancelling_and_coming_back_gives_the_line_back() {
    let note = "# Day planner\n\n## Calendar\n\n\
                - [ ] 10:00 - 10:30 Standup bring slides <!--gcal:aaaaaaaaaaaa-->\n";
    let (cancelled, _) = run(note, &[]);
    assert!(cancelled.contains("~~Standup bring slides~~ (cancelled)"), "{cancelled}");
    let (back, _) = run(&cancelled, &[event("aaaaaaaaaaaa", "Standup", 600, 630)]);
    assert_eq!(back, note);
}

/// Reconciles twice, and fails where the second time finds something to do.
fn settled(note: &str, event: &CalendarEvent, config: &CalendarConfig) -> String {
    let events = std::slice::from_ref(event);
    let Reconciled::Edits { edits, .. } = reconcile(note, events, config) else {
        panic!("no planner section in {note:?}");
    };
    let applied = apply_line_edits(note, &edits);
    let Reconciled::Edits { edits, .. } = reconcile(&applied, events, config) else {
        panic!("no planner section in {applied:?}");
    };
    assert!(edits.is_empty(), "not idempotent for {note:?}:\n{applied:?}\n{edits:?}");
    applied
}

fn section(text: &str) -> String {
    format!("# Day planner\n\n## Calendar\n\n{text}")
}

fn line(text: &str) -> String {
    section(&format!("- [ ] {text} <!--gcal:aaaaaaaaaaaa-->\n"))
}

#[test]
fn a_title_that_looks_like_the_cancellation_mark_does_not_grow() {
    let title = "~~X~~ (cancelled) foo";
    let timed = event("aaaaaaaaaaaa", title, 600, 630);
    let expected = line(&format!("10:00 - 10:30 {title}"));
    let shown = format!("- [ ] 10:00 - 10:30 {title} <!--gcal:aaaaaaaaaaaa-->\n");
    assert!(settled(&section(""), &timed, &config()).contains(&shown));
    assert_eq!(settled(&expected, &timed, &config()), expected);
    let free = all_day("aaaaaaaaaaaa", title);
    assert_eq!(settled(&expected, &free, &config()), line(title));
    assert_eq!(settled(&line(&format!("{title} my words")), &free, &config()),
        line(&format!("{title} my words")));
}

#[test]
fn an_all_day_title_may_begin_with_a_time() {
    for title in ["09:00", "09:00 Standup", "9:00 - 10:00", "09:00 - 09:30 09:00"] {
        let free = all_day("aaaaaaaaaaaa", title);
        assert_eq!(settled(&line(&format!("08:00 - 08:30 {title}")), &free, &config()), line(title));
        let (applied, diverged) = run(&line(&format!("{title} bring tea")), &[free]);
        assert_eq!(applied, line(&format!("{title} bring tea")));
        assert!(diverged.is_empty());
    }
    // An old time goes, also where it begins like the title.
    let free = all_day("aaaaaaaaaaaa", "09:00");
    assert_eq!(settled(&line("09:00 - 10:00 09:00 tea"), &free, &config()), line("09:00 tea"));
    // Struck through and back again.
    let note = line("09:00 Standup bring tea");
    let (struck, _) = run(&note, &[]);
    assert_eq!(struck, line("09:00 ~~Standup bring tea~~ (cancelled)"));
    assert_eq!(settled(&struck, &all_day("aaaaaaaaaaaa", "09:00 Standup"), &config()), note);
}

#[test]
fn an_event_without_a_title_settles_at_once() {
    let timed = event("aaaaaaaaaaaa", "", 600, 630);
    let free = all_day("aaaaaaaaaaaa", "");
    let twice = "~~~~A~~ (cancelled)~~ (cancelled)";
    assert_eq!(settled(&line(twice), &timed, &config()), line("10:00 - 10:30 A"));
    assert_eq!(settled(&line(twice), &free, &config()), line("A"));
    assert_eq!(settled(&line("10:00 - 10:30 A"), &free, &config()), line("A"));
    // A time that would come to the front keeps the one before it there.
    let times = line("10:00 - 10:30 09:00 A");
    assert_eq!(settled(&times, &free, &config()), times);
    assert_eq!(settled(&line("~~09:00 A~~ (cancelled)"), &free, &config()), line("A"));
    for text in ["09:00", "~~~~ (cancelled)", "10:00 ~~- 10:30 A~~ (cancelled)", "09:00 ~~x"] {
        settled(&line(text), &free, &config());
        settled(&line(text), &timed, &config());
    }
}

#[test]
fn a_word_right_behind_the_mark_is_parted_from_the_title() {
    let note = line("~~Old~~ (cancelled)foo");
    let timed = event("aaaaaaaaaaaa", "Standup", 600, 630);
    assert_eq!(settled(&note, &timed, &config()), line("10:00 - 10:30 Standup foo"));
}

#[test]
fn a_section_name_of_two_lines_is_put_on_one() {
    let mut named = config();
    named.section = "My\nmeetings".to_string();
    let timed = event("aaaaaaaaaaaa", "Standup", 600, 630);
    let applied = settled("# Day planner\n", &timed, &named);
    assert!(applied.contains("## My meetings\n"), "{applied}");
}
