use thock::calendar::{CalendarConfig, Fetched};
use thock::calendar_service::{
    after_fetch, buffer_outcome, CalendarListEntry, CalendarPicker, DayAnswer,
};
use thock::gmail::{thread_marker_id, GmailConfig, GmailFetched, MappingFetched};
use thock::gmail_google::{GmailMessage, GmailThread, MessageRef};
use thock::gmail_service::{backlog_outcome, imported_state, plan_poll, DirScan, LandingStep};
use thock::inbox::CapturedItem;
use thock::mail_fetch::{FetchAction, LabelCache, MailFetch, MessageList};
use thock::mime::{MessageHeader, MessagePart, PartBody};
use thock::moments::Moment;
use thock::sync::{Loaded, SyncOutcome, SyncService, SyncState};
use thock::synced_line::{CalendarEvent, EventKind};
use thock::toml_file::{update_config_text, ConfigChange, ConfigValue};

const ACCOUNT: &str = "diego@example.com";
const NOW: Moment = Moment { seconds: 1755600000, nanos: 0, offset: 0 };

fn message_ref(id: &str, thread_id: &str) -> MessageRef {
    MessageRef { id: id.to_string(), thread_id: thread_id.to_string() }
}

fn thread(subject: &str) -> GmailThread {
    let payload = MessagePart {
        headers: vec![MessageHeader { name: "Subject".to_string(), value: subject.to_string() }],
        body: PartBody { data: None },
        ..MessagePart::default()
    };
    GmailThread {
        messages: vec![GmailMessage { label_ids: vec![], internal_date: None, payload }],
    }
}

fn titles(fetched: &MappingFetched) -> Vec<String> {
    match fetched {
        MappingFetched::Items(items) => items.iter().map(|item| item.title.clone()).collect(),
        MappingFetched::LabelNotFound => vec!["label not found".to_string()],
    }
}

fn thread_ids(fetched: &MappingFetched) -> Vec<String> {
    match fetched {
        MappingFetched::Items(items) => {
            items.iter().map(|item| item.external_id.clone()).collect()
        }
        MappingFetched::LabelNotFound => vec![],
    }
}

#[test]
fn a_fetch_walks_the_labels_and_claims_each_thread_once() {
    let labels = vec![Some("L1".to_string()), None, Some("L2".to_string())];
    let mut fetch = MailFetch::new(labels);
    let skip = vec![thread_marker_id(ACCOUNT, "known")];
    assert_eq!(fetch.next(), FetchAction::List("L1".to_string()));
    // Asking again changes nothing.
    assert_eq!(fetch.next(), FetchAction::List("L1".to_string()));
    fetch.take_list(
        &[message_ref("m1", "t1"), message_ref("m2", "t1"), message_ref("m3", "known")],
        ACCOUNT,
        &skip,
    );
    assert_eq!(fetch.next(), FetchAction::Thread("t1".to_string()));
    fetch.take_thread(&thread("First"), ACCOUNT, &[0], NOW);
    // The second mapping has no label; the third has one thread of its own.
    assert_eq!(fetch.next(), FetchAction::List("L2".to_string()));
    fetch.take_list(&[message_ref("m1", "t1"), message_ref("m4", "t2")], ACCOUNT, &skip);
    assert_eq!(fetch.next(), FetchAction::Thread("t2".to_string()));
    fetch.take_thread(&thread("Second"), ACCOUNT, &[0], NOW);
    assert_eq!(fetch.next(), FetchAction::Done);
    let done = fetch.finish();
    let all: Vec<Vec<String>> = done.iter().map(titles).collect();
    assert_eq!(all, [vec!["First"], vec!["label not found"], vec!["Second"]]);
    let ids: Vec<Vec<String>> = done.iter().map(thread_ids).collect();
    assert_eq!(ids.concat(), ["t1", "t2"]);
}

#[test]
fn a_mail_poll_plans_notes_lines_and_records() {
    let config = GmailConfig { account: Some(ACCOUNT.to_string()), ..GmailConfig::default() };
    let item = CapturedItem {
        source: "gmail",
        external_id: "t-1".to_string(),
        title: "Pay up".to_string(),
        from: None,
        url: None,
        link: None,
        body: None,
        occurred_at: Some(NOW),
        due: None,
    };
    let fetched = GmailFetched {
        mappings: vec![MappingFetched::Items(vec![item]), MappingFetched::LabelNotFound],
    };
    let dirs: Vec<DirScan> =
        config.mappings.iter().map(|_| DirScan { stems: vec![], digest_stems: vec![] }).collect();
    let poll = plan_poll(&config, &fetched, &dirs, &[], &[], &[], "2026-08-18T09:31:00-07:00");
    assert_eq!(poll.captured, 1);
    assert!(poll.holding.is_some_and(|reason| reason.contains(&config.mappings[1].label)));
    assert_eq!(poll.steps.len(), 3);
    assert!(matches!(&poll.steps[0], LandingStep::CreateNote(path, _)
        if path.starts_with("archives/emails/")));
    assert!(matches!(&poll.steps[1], LandingStep::AddToBacklog(lines) if lines.len() == 1));
    assert!(matches!(&poll.steps[2], LandingStep::Record(entries)
        if entries.len() == 1 && entries[0].contains("\"t-1\"")));
}

#[test]
fn a_days_answer_is_events_or_an_end() {
    let event = CalendarEvent {
        id: "aaaaaaaaaaaa".to_string(),
        title: "Standup".to_string(),
        time: None,
        kind: EventKind::Default,
    };
    let answer = DayAnswer::Fetched(Fetched::Events(vec![event.clone()]));
    assert_eq!(after_fetch(answer), Ok(vec![event]));
    let answer = DayAnswer::Fetched(Fetched::Unchanged);
    assert_eq!(after_fetch(answer), Err(SyncOutcome::Synced { captured: 0 }));
    assert_eq!(after_fetch(DayAnswer::AuthRevoked), Err(SyncOutcome::AuthRevoked));
    assert_eq!(
        after_fetch(DayAnswer::Failed("503".to_string())),
        Err(SyncOutcome::Failed("503".to_string()))
    );
}

#[test]
fn event_kinds_are_told_by_their_google_names() {
    assert_eq!(EventKind::from_google("focusTime"), EventKind::FocusTime);
    assert_eq!(EventKind::from_google("outOfOffice"), EventKind::OutOfOffice);
    assert_eq!(EventKind::from_google("workingLocation"), EventKind::Default);
    assert!(EventKind::FocusTime.is_status());
    assert!(!EventKind::Default.is_status());
}

#[test]
fn connecting_and_signing_out_move_the_state() {
    let mut service: SyncService<CalendarConfig> = SyncService::new();
    assert!(!service.start_connect());
    service.mark_connecting();
    assert_eq!(service.state(), &SyncState::NoConfig);
    let config = CalendarConfig::with_planner_heading("Day planner");
    assert!(service.reload(Loaded::Account(config), "unreadable"));
    service.built(Ok(true));
    assert!(service.start_connect());
    assert_eq!(service.state(), &SyncState::Connecting);
    service.choose_failed(false, "503".to_string());
    assert_eq!(service.state(), &SyncState::Failing { error: "503".to_string() });
    service.choose_failed(true, "403".to_string());
    assert_eq!(service.state(), &SyncState::Disconnected);
    service.mark_connecting();
    assert_eq!(service.state(), &SyncState::Connecting);
    service.mark_signed_out();
    assert_eq!(service.state(), &SyncState::NeverConnected);
    assert!(!service.sync_now());
}

#[test]
fn settings_are_put_in_order_and_kept_where_asked() {
    let change = |key: &str, value: ConfigValue, only_if_absent: bool| ConfigChange {
        key: key.to_string(),
        value,
        only_if_absent,
    };
    let text = |s: &str| ConfigValue::Text(s.to_string());
    let changes = [
        change("a", text("new"), true),
        change("b", ConfigValue::Number(1), false),
        change("b", ConfigValue::Number(2), true),
        change("b", ConfigValue::Number(3), false),
        change("c", ConfigValue::Texts(vec!["x".to_string()]), true),
        change("c", text("late"), true),
    ];
    let out = update_config_text("a = \"old\"\nz = true\n[t]\nk = 1\n", &changes).unwrap();
    let table = out.parse::<toml::Table>().unwrap();
    assert_eq!(table["a"].as_str(), Some("old"));
    assert_eq!(table["b"].as_integer(), Some(3));
    assert_eq!(table["c"].as_array().map(|ids| ids.len()), Some(1));
    assert_eq!(table["z"].as_bool(), Some(true));
    assert_eq!(table["t"]["k"].as_integer(), Some(1));
    // With nothing to change, the text is only written anew.
    assert_eq!(update_config_text("a=1", &[]).as_deref(), Some("a = 1\n"));
    assert_eq!(update_config_text("a=", &[]), None);
}

#[test]
fn both_states_tell_what_was_imported() {
    let mail = "{\"digest\":\"aaa\",\"thread\":\"t\"}\nnot json\n";
    let inbox = "{\"digest\":\"bbb\"}\n{\"digest\":\"aaa\"}\n";
    assert_eq!(imported_state(Some(mail), Some(inbox)), ["aaa", "bbb"]);
    assert_eq!(imported_state(None, Some(inbox)), ["bbb", "aaa"]);
    assert!(imported_state(None, None).is_empty());
}

#[test]
fn an_open_buffer_is_tried_three_times() {
    assert_eq!(buffer_outcome(1, true), Some(SyncOutcome::Synced { captured: 0 }));
    assert_eq!(buffer_outcome(2, false), None);
    assert_eq!(
        buffer_outcome(3, false),
        Some(SyncOutcome::Failed(
            "the buffer kept changing while applying calendar edits".to_string()
        ))
    );
    assert_eq!(backlog_outcome(1, false), None);
    assert_eq!(backlog_outcome(3, true), Some(Ok(())));
    assert_eq!(
        backlog_outcome(3, false),
        Some(Err("the buffer kept changing while applying captured emails"))
    );
}

#[test]
fn picker_rows_show_what_is_chosen() {
    let entry = |id: &str, summary: &str, primary: bool| CalendarListEntry {
        id: id.to_string(),
        summary: summary.to_string(),
        primary,
    };
    let entries = vec![entry("me@example.com", "", true), entry("team", "Team", false)];
    let picker = CalendarPicker::new(entries, vec!["team".to_string()]);
    let first = picker.row_at(0).unwrap();
    assert_eq!((first.name.as_str(), first.chosen, first.primary), ("me@example.com", false, true));
    let second = picker.row_at(1).unwrap();
    assert_eq!((second.name.as_str(), second.chosen, second.primary), ("Team", true, false));
    assert_eq!(picker.row_at(2), None);
}

#[test]
fn messages_are_listed_over_all_pages() {
    let mut list = MessageList::new();
    assert_eq!(list.page, None);
    assert!(list.take_page(vec![message_ref("m1", "t1")], Some("next".to_string())));
    assert_eq!(list.page.as_deref(), Some("next"));
    assert!(!list.take_page(vec![message_ref("m2", "t2")], None));
    let ids: Vec<&str> = list.messages.iter().map(|message| message.id.as_str()).collect();
    assert_eq!(ids, ["m1", "m2"]);
}

#[test]
fn label_ids_are_kept_until_a_list_fails() {
    let found = vec![Some("L1".to_string()), Some("L2".to_string())];
    let mut labels = LabelCache::new();
    assert_eq!(labels.known(), None);
    labels.resolved(&[Some("L1".to_string()), None]);
    assert_eq!(labels.known(), None);
    labels.resolved(&found);
    assert_eq!(labels.known(), Some(found));
    labels.list_failed();
    assert_eq!(labels.known(), None);
}
