use thock::agent::ModelTier;
use thock::agent_panel::LaunchRequest;
use thock::chat_flow::{entry_body, EntryBody, FocusTarget, ThreadEvent, ThreadStep};
use thock::chat_panel::{
    chat_failed, ChatFailure,
    cancel_step, chat_empty_state, confirm_step, CancelStep, ChatBody, ChatLaunch, ChatPanel,
    ChatView, ConfirmStep, ConnectionMode, Entitlement, Fetched, Gateway, MessageStep,
    PlusConnection, SendStep, TurnEvent, UsageTone,
};
use thock::elicitation::{
    answer_elicitation, choose_permission, cycle_choice, elicitation_shape, question_body, Answer,
    AnswerFocus, ElicitationMode, ElicitationRequest, ElicitationShape, PermissionKind,
    PropertySchema, QuestionBody,
};
use thock::transcript::{
    activity_line, build_items, call_row, items_of_entries, path_to_open, plan_line, select,
    selected_position, summarize_activity, vault_relative_label, CallStatus, ChatItem, Chunk,
    EntryShape, ItemKey, Motion, SummaryCall, ThreadEntry, ToolCall, ToolKind,
};

fn tool(id: &'static str) -> EntryShape {
    EntryShape::Tool(id.to_string())
}

fn keys(items: &[ChatItem]) -> Vec<String> {
    items
        .iter()
        .map(|item| match item {
            ChatItem::Entry(index) => format!("entry:{index}"),
            ChatItem::Activity { key, calls } => format!("activity:{key}:{}", calls.len()),
        })
        .collect()
}

#[test]
fn consecutive_tool_calls_collapse_into_one_activity() {
    let items = build_items(vec![
        EntryShape::Visible,
        tool("a"),
        tool("b"),
        tool("c"),
        EntryShape::Visible,
    ]);
    assert_eq!(keys(&items), ["entry:0", "activity:a:3", "entry:4"]);
}

#[test]
fn hidden_entries_neither_render_nor_split_a_run() {
    // A thought-only assistant message between tool calls must not break the
    // run into two activity lines.
    let items = build_items(vec![
        tool("a"),
        EntryShape::Hidden,
        tool("b"),
        EntryShape::Visible,
        EntryShape::Hidden,
    ]);
    assert_eq!(keys(&items), ["activity:a:2", "entry:3"]);
}

#[test]
fn a_visible_entry_splits_runs_and_a_trailing_run_flushes() {
    let items = build_items(vec![tool("a"), EntryShape::Visible, tool("b"), tool("c")]);
    assert_eq!(keys(&items), ["activity:a:1", "entry:1", "activity:b:2"]);
}

#[test]
fn activity_key_is_stable_while_the_run_grows() {
    // A run that grows mid-turn keeps its key, so expansion state and
    // selection keyed by it survive the re-render.
    let before = build_items(vec![EntryShape::Visible, tool("a")]);
    let after = build_items(vec![EntryShape::Visible, tool("a"), tool("b"), tool("c")]);
    let key_of = |items: &[ChatItem]| match &items[1] {
        ChatItem::Activity { key, .. } => key.clone(),
        _ => panic!("expected an activity"),
    };
    assert_eq!(key_of(&before), key_of(&after));
}

#[test]
fn a_message_arriving_mid_run_splits_it_and_keeps_the_first_key() {
    let before = build_items(vec![tool("a"), tool("b")]);
    let after = build_items(vec![tool("a"), EntryShape::Visible, tool("b")]);
    assert_eq!(keys(&before), ["activity:a:2"]);
    assert_eq!(keys(&after), ["activity:a:1", "entry:1", "activity:b:1"]);
}

fn call(kind: ToolKind, note: Option<&str>) -> SummaryCall {
    SummaryCall { kind, note: note.map(str::to_string) }
}

#[test]
fn a_single_read_names_the_note() {
    let calls = [call(ToolKind::Read, Some("daily/2026-09-09.md"))];
    assert_eq!(summarize_activity(&calls, false), "Looked at daily/2026-09-09.md");
    assert_eq!(summarize_activity(&calls, true), "Looking at daily/2026-09-09.md…");
}

#[test]
fn many_reads_become_one_looking_line() {
    let calls = [
        call(ToolKind::Read, Some("daily/2026-09-08.md")),
        call(ToolKind::Read, Some("daily/2026-09-09.md")),
        call(ToolKind::Read, Some("daily/2026-09-10.md")),
        call(ToolKind::Search, None),
        call(ToolKind::Read, Some("weekly/2026-W37.md")),
    ];
    assert_eq!(summarize_activity(&calls, false), "Looked through your notes");
    assert_eq!(summarize_activity(&calls, true), "Looking through your notes…");
}

#[test]
fn a_write_wins_over_reads_and_names_the_note() {
    let calls = [
        call(ToolKind::Read, Some("daily/2026-09-14.md")),
        call(ToolKind::Edit, Some("daily/2026-09-15.md")),
    ];
    assert_eq!(summarize_activity(&calls, false), "Updated daily/2026-09-15.md");
    assert_eq!(summarize_activity(&calls, true), "Updating daily/2026-09-15.md…");
}

#[test]
fn writes_to_many_notes_are_counted() {
    let calls = [
        call(ToolKind::Edit, Some("daily/2026-09-15.md")),
        call(ToolKind::Edit, Some("weekly/2026-W38.md")),
    ];
    assert_eq!(summarize_activity(&calls, false), "Updated 2 notes");
    assert_eq!(summarize_activity(&calls, true), "Updating your notes…");
}

#[test]
fn deletes_alone_say_removed() {
    let calls = [call(ToolKind::Delete, Some("inbox/old.md"))];
    assert_eq!(summarize_activity(&calls, false), "Removed inbox/old.md");
}

#[test]
fn execute_and_the_rest_fall_back_to_the_generic_phrase() {
    let calls = [call(ToolKind::Execute, None), call(ToolKind::Think, None)];
    assert_eq!(summarize_activity(&calls, false), "Worked behind the scenes");
    assert_eq!(summarize_activity(&calls, true), "Working behind the scenes…");
}

#[test]
fn an_empty_run_still_produces_a_line() {
    assert_eq!(summarize_activity(&[], false), "Worked behind the scenes");
}

#[test]
fn paths_render_vault_relative() {
    let root = "/Users/someone/Thock";
    assert_eq!(
        vault_relative_label("/Users/someone/Thock/daily/2026-09-09.md", Some(root)),
        "daily/2026-09-09.md"
    );
}

#[test]
fn outside_vault_paths_show_the_file_name_only() {
    // No absolute path may reach the transcript, even for the outside-vault
    // calls the sandbox should have prevented.
    let root = "/Users/someone/Thock";
    assert_eq!(vault_relative_label("/etc/hosts", Some(root)), "hosts");
    assert_eq!(vault_relative_label("/somewhere/else.md", None), "else.md");
}

#[test]
fn paths_without_a_name_are_a_file() {
    assert_eq!(vault_relative_label("/", None), "a file");
    assert_eq!(vault_relative_label("/a/..", None), "a file");
    assert_eq!(vault_relative_label("/Users/someone/Thockish/x.md", Some("/Users/someone/Thock")), "x.md");
}

#[test]
fn repeated_notes_count_once() {
    let calls = [
        call(ToolKind::Edit, Some("a.md")),
        call(ToolKind::Move, Some("a.md")),
        call(ToolKind::Delete, None),
    ];
    assert_eq!(summarize_activity(&calls, false), "Updated a.md");
    assert_eq!(summarize_activity(&[call(ToolKind::Edit, None)], false), "Updated your notes");
}

fn tool_call(id: &str, kind: ToolKind, status: CallStatus, path: Option<&str>) -> ThreadEntry {
    ThreadEntry::ToolCall(ToolCall {
        id: id.to_string(),
        kind,
        status,
        location: path.map(str::to_string),
        label: "grep notes".to_string(),
        tool_name: Some("grep".to_string()),
    })
}

fn thread() -> Vec<ThreadEntry> {
    vec![
        ThreadEntry::UserMessage,
        tool_call("a", ToolKind::Read, CallStatus::Completed, Some("/v/one.md")),
        ThreadEntry::AssistantMessage(vec![Chunk::Thought]),
        tool_call("b", ToolKind::Edit, CallStatus::InProgress, Some("/v/two.md")),
        ThreadEntry::AssistantMessage(vec![Chunk::Thought, Chunk::Message]),
    ]
}

#[test]
fn activities_read_from_the_thread() {
    let entries = thread();
    let items = items_of_entries(&entries);
    assert_eq!(keys(&items), ["entry:0", "activity:a:2", "entry:4"]);
    let ChatItem::Activity { calls, .. } = &items[1] else {
        panic!("expected an activity");
    };
    assert_eq!(activity_line(&entries, calls, Some("/v")), "Updating two.md…");
    // The first write wins over the first read.
    assert_eq!(path_to_open(&entries, calls).as_deref(), Some("/v/two.md"));
    assert_eq!(path_to_open(&entries, &calls[..1]).as_deref(), Some("/v/one.md"));
    assert_eq!(path_to_open(&entries, &[]), None);
    let ThreadEntry::ToolCall(call) = &entries[1] else {
        panic!("expected a tool call");
    };
    let row = call_row(call, Some("/v"));
    assert_eq!((row.verb, row.detail.as_deref()), ("Read", Some("one.md")));
    assert_eq!(row.id, "thock-chat-call-a");
    assert_eq!(plan_line(1), "Finished a plan of 1 step.");
    assert_eq!(plan_line(3), "Finished a plan of 3 steps.");
}

#[test]
fn the_selection_moves_and_follows_a_run() {
    let items = items_of_entries(&thread());
    let (at, key) = select(&None, &items, Motion::Previous).unwrap();
    assert_eq!((at, key), (2, ItemKey::Entry(4)));
    let (at, key) = select(&Some(ItemKey::Entry(0)), &items, Motion::Next).unwrap();
    assert_eq!((at, key), (1, ItemKey::Activity("a".to_string())));
    // A call in the middle of a run means the run.
    let middle = Some(ItemKey::Activity("b".to_string()));
    assert_eq!(selected_position(&middle, &items), Some(1));
    assert_eq!(selected_position(&Some(ItemKey::Entry(1)), &items), None);
    assert!(select(&None, &[], Motion::First).is_none());

    // The selected row stays where it is while the thread grows.
    let mut grown = thread();
    grown.push(tool_call("c", ToolKind::Read, CallStatus::Pending, None));
    let after = items_of_entries(&grown);
    assert_eq!(selected_position(&middle, &after), Some(1));

    let mut panel = ChatPanel::new();
    panel.selected = middle;
    panel.expand(&items, true);
    assert_eq!(panel.expanded, ["a"]);
    panel.expand(&items, false);
    assert!(panel.expanded.is_empty());
    panel.toggle_activity("a");
    assert_eq!(panel.expanded, ["a"]);
}

fn form(fields: Vec<(&str, PropertySchema)>) -> ElicitationRequest {
    ElicitationRequest {
        message: "Which day?".to_string(),
        mode: ElicitationMode::Form(
            fields.into_iter().map(|(name, schema)| (name.to_string(), schema)).collect(),
        ),
    }
}

#[test]
fn questions_take_the_shape_of_their_form() {
    let titled = form(vec![(
        "day",
        PropertySchema::Text {
            one_of: Some(vec![("mon".to_string(), "Monday".to_string())]),
            enum_values: Some(vec!["ignored".to_string()]),
        },
    )]);
    let shape = elicitation_shape(&titled);
    assert_eq!(
        shape,
        ElicitationShape::Choice {
            property: "day".to_string(),
            options: vec![("mon".to_string(), "Monday".to_string())],
        }
    );
    let plain = form(vec![(
        "day",
        PropertySchema::Text {
            one_of: None,
            enum_values: Some(vec!["mon".to_string(), "tue".to_string()]),
        },
    )]);
    let choice = elicitation_shape(&plain);
    assert_eq!(cycle_choice(None, &choice, true), Some(1));
    assert_eq!(cycle_choice(Some(1), &choice, true), Some(1));
    assert_eq!(cycle_choice(Some(0), &choice, false), Some(0));
    assert_eq!(
        answer_elicitation(&choice, true, None, Some(1), None),
        Answer::Accept(Some(("day".to_string(), "tue".to_string())))
    );
    assert_eq!(
        answer_elicitation(&choice, true, Some(0), Some(1), None),
        Answer::Accept(Some(("day".to_string(), "mon".to_string())))
    );
    assert_eq!(answer_elicitation(&choice, true, Some(9), None, None), Answer::Nothing);
    assert_eq!(answer_elicitation(&choice, false, None, None, None), Answer::Nothing);
    assert_eq!(
        question_body(choice, true, Some(1), false),
        QuestionBody::Options {
            titles: vec![("mon".to_string(), false), ("tue".to_string(), true)],
            hint: "←/→ to choose · Enter to answer",
        }
    );

    let free = elicitation_shape(&form(vec![(
        "name",
        PropertySchema::Text { one_of: None, enum_values: None },
    )]));
    assert_eq!(answer_elicitation(&free, true, None, None, Some("  ")), Answer::Nothing);
    assert_eq!(
        answer_elicitation(&free, true, None, None, Some(" Ana ")),
        Answer::Accept(Some(("name".to_string(), "Ana".to_string())))
    );
    assert_eq!(cycle_choice(None, &free, true), None);

    let two = form(vec![("a", PropertySchema::Other), ("b", PropertySchema::Other)]);
    assert_eq!(elicitation_shape(&two), ElicitationShape::Confirm);
    let link = ElicitationRequest {
        message: "Sign in".to_string(),
        mode: ElicitationMode::Url("https://x".to_string()),
    };
    assert_eq!(
        answer_elicitation(&elicitation_shape(&link), true, None, None, None),
        Answer::OpenLink("https://x".to_string())
    );
}

#[test]
fn permissions_take_the_broadest_allow() {
    let kinds =
        [PermissionKind::RejectOnce, PermissionKind::AllowOnce, PermissionKind::AllowAlways];
    assert_eq!(choose_permission(&kinds), Some(2));
    assert_eq!(choose_permission(&kinds[..2]), Some(1));
    assert_eq!(choose_permission(&[PermissionKind::RejectAlways]), None);
}

fn entitlement() -> Entitlement {
    Entitlement {
        plan_name: "Plus".to_string(),
        used_percent: 85,
        running_low: false,
        exhausted: false,
        balance_summary: "15% left".to_string(),
        gateway: Some(Gateway {
            api_key: "key".to_string(),
            default_model: "big".to_string(),
            fast_model: "small".to_string(),
        }),
        max_turns_per_session: 2,
    }
}

fn connected() -> ChatPanel {
    let mut panel = ChatPanel::new();
    panel.has_vault = true;
    panel.apply_entitlement_result("cred".to_string(), Fetched::Read(entitlement()));
    panel
}

#[test]
fn the_low_allowance_warning_comes_once() {
    let mut panel = ChatPanel::new();
    let low = || Fetched::Read(Entitlement { running_low: true, ..entitlement() });
    let news = panel.apply_entitlement_result("c".to_string(), low());
    assert_eq!(
        news.warning.as_deref(),
        Some("The Thock Agent has used 85% of this cycle's allowance.")
    );
    assert_eq!(panel.apply_entitlement_result("c".to_string(), low()).warning, None);
    assert_eq!(panel.effective_mode(), ConnectionMode::Hosted);
    // A failure to reach the service keeps the connection; a revocation does not.
    panel.apply_entitlement_result("c".to_string(), Fetched::Unreachable);
    assert!(matches!(panel.connection, PlusConnection::Connected { .. }));
    let refused = Fetched::Refused {
        message: "Turned off.".to_string(),
        invalidates_credential: true,
    };
    assert!(panel.apply_entitlement_result("c".to_string(), refused).forget_credential);
    assert_eq!(panel.connection, PlusConnection::Revoked("Turned off.".to_string()));
    assert_eq!(panel.effective_mode(), ConnectionMode::Byo);
    let step = panel.launch(LaunchRequest::conversation());
    assert_eq!(step, ChatLaunch::Refuse("Open a Thock vault to use the Thock Agent; it works inside your notes folder."));
    panel.has_vault = true;
    let ChatLaunch::FallBack { message, .. } = panel.launch(LaunchRequest::conversation()) else {
        panic!("expected a fallback");
    };
    assert_eq!(message, "Turned off. Running this with your own agent instead.");
    assert_eq!(panel.mode, Some(ConnectionMode::Byo));
}

#[test]
fn launches_wait_for_the_connection_and_continue() {
    let mut panel = ChatPanel::new();
    panel.has_vault = true;
    assert_eq!(panel.launch(LaunchRequest::conversation()), ChatLaunch::Wait);
    assert_eq!(panel.continue_pending_launch(), None);
    panel.no_credential();
    let request = panel.continue_pending_launch().unwrap();
    assert_eq!(panel.launch(request), ChatLaunch::Connect);
    assert_eq!(panel.view, ChatView::Connect { busy: false, error: None });
    assert_eq!(panel.submit_invite_code("   "), None);
    assert_eq!(
        panel.view,
        ChatView::Connect {
            busy: false,
            error: Some("Enter the invite code you were given.".to_string()),
        }
    );
    assert_eq!(panel.submit_invite_code(" thock-7k3m "), Some("THOCK-7K3M".to_string()));
    assert_eq!(panel.connect_button(), Some(("Connecting…", true)));
    assert_eq!(panel.submit_invite_code("again"), None);
    panel.connect_failed(None, "timed out");
    assert_eq!(
        panel.view,
        ChatView::Connect {
            busy: false,
            error: Some("Couldn't reach Thock Plus: timed out".to_string()),
        }
    );
    let request = panel.connected("cred".to_string(), entitlement());
    assert_eq!(request, Some(LaunchRequest::conversation()));
    assert_eq!(panel.disconnect().as_deref(), Some("cred"));
    assert_eq!(panel.connection, PlusConnection::Disconnected);
}

#[test]
fn chats_send_until_they_are_too_long() {
    let mut panel = connected();
    let request = LaunchRequest::run_skill("Wrap", "skills/wrap.md", ModelTier::Fast);
    let ChatLaunch::Go { request, api_key, model, max_turns } = panel.launch(request) else {
        panic!("expected a session");
    };
    assert_eq!((api_key.as_str(), model.as_str(), max_turns), ("key", "small", 2));
    assert_eq!(panel.body(), ChatBody::Starting("Setting up the Thock Agent…"));
    panel.process_starting();
    assert_eq!(panel.body(), ChatBody::Starting("Starting the Thock Agent…"));
    let kickoff = panel.attach_session(request, max_turns).unwrap();
    assert_eq!(panel.body(), ChatBody::Session);
    assert_eq!(
        panel.send_text(&kickoff, false),
        SendStep::Send("Read and execute skills/wrap.md".to_string())
    );
    assert_eq!(panel.send_text(" ", false), SendStep::Nothing);
    assert_eq!(
        panel.send_text("more", true),
        SendStep::Refuse("The Thock Agent is still working. Wait for it, or stop it first.")
    );
    panel.turn_failed(TurnEvent::Error);
    assert_eq!(panel.retry_turn().as_deref(), Some("Read and execute skills/wrap.md"));
    let frame = panel.chat_frame(&thread(), true).unwrap();
    assert_eq!(frame.failure, Some(("The Thock Agent couldn't finish that.", true)));
    assert_eq!(frame.usage, Some(UsageTone::Quiet));
    // Prose is streaming, so there is no spinner.
    assert!(frame.stop && !frame.spinner);
    assert!(panel.chat_frame(&thread()[..4], true).unwrap().spinner);
    panel.turn_failed(TurnEvent::Refusal);
    assert_eq!(panel.retry_turn(), None);
    assert_eq!(panel.send_text(" again ", false), SendStep::Send("again".to_string()));
    assert_eq!(
        panel.send_text("third", false),
        SendStep::Refuse(
            "This chat has reached its length limit. Start a new chat to keep going."
        )
    );
    panel.apply_entitlement_result(
        "cred".to_string(),
        Fetched::Read(Entitlement { exhausted: true, ..entitlement() }),
    );
    assert_eq!(
        panel.send_text("x", false),
        SendStep::Refuse("The Thock Agent has used all of this cycle's allowance.")
    );
    assert_eq!(panel.composer_hint(), ("Out of allowance for this cycle", true));
    assert!(matches!(panel.launch(LaunchRequest::conversation()), ChatLaunch::Refuse(_)));
}

#[test]
fn the_first_message_is_the_kickoff() {
    let panel = connected();
    assert_eq!(panel.send_message("  "), MessageStep::Nothing);
    assert_eq!(
        panel.send_message(" hi "),
        MessageStep::Launch(LaunchRequest {
            title: "Chat".to_string(),
            kickoff: Some(" hi ".to_string()),
            tier: ModelTier::Default,
        })
    );
}

#[test]
fn failed_starts_say_why() {
    let mut panel = connected();
    assert_eq!(panel.start_failed(false, "no node"), "Couldn't start the Thock Agent: no node");
    assert_eq!(
        panel.start_failed(true, ""),
        "The Thock Agent couldn't sign in to its model gateway. Reconnect Thock Plus and try again."
    );
}

#[test]
fn questions_arrive_selected() {
    let mut panel = connected();
    let free = ElicitationShape::Text { property: "p".to_string() };
    assert_eq!(panel.prepare_elicitation("q1", 3, &free), AnswerFocus::AnswerBox);
    assert_eq!(panel.selected, Some(ItemKey::Entry(3)));
    assert_eq!(panel.choice("q1"), None);
    let choice = ElicitationShape::Choice { property: "p".to_string(), options: vec![] };
    assert_eq!(panel.prepare_elicitation("q2", 4, &choice), AnswerFocus::List);
    assert_eq!(panel.choice("q2"), Some(0));
    panel.set_choice("q2", 5);
    assert_eq!((panel.choice("q2"), panel.choice("q1")), (Some(5), None));
}

#[test]
fn keys_do_one_thing() {
    assert_eq!(confirm_step(true, true, true, true), ConfirmStep::SubmitCode);
    assert_eq!(confirm_step(false, true, false, false), ConfirmStep::Answer);
    assert_eq!(confirm_step(false, false, true, true), ConfirmStep::SendMessage);
    assert_eq!(confirm_step(false, false, false, true), ConfirmStep::Answer);
    assert_eq!(confirm_step(false, false, false, false), ConfirmStep::OpenSelected);
    assert_eq!(cancel_step(true, true, true), CancelStep::LeaveConnect);
    assert_eq!(cancel_step(false, true, true), CancelStep::StopTurn);
    assert_eq!(cancel_step(false, false, true), CancelStep::FocusList);
    assert_eq!(cancel_step(false, false, false), CancelStep::Propagate);
}

#[test]
fn the_empty_chat_follows_the_connection() {
    let mut panel = ChatPanel::new();
    assert_eq!(chat_empty_state(&panel.connection).text, "Checking your Thock Plus connection…");
    panel.no_credential();
    assert_eq!(
        chat_empty_state(&panel.connection).buttons,
        vec![("thock-chat-connect", "Connect Thock Agent")]
    );
    assert_eq!(panel.body(), ChatBody::NoVault("Open a Thock vault to chat with the Thock Agent."));
    let mut panel = connected();
    assert_eq!(chat_empty_state(&panel.connection).title, Some("Thock Agent is ready"));
    assert_eq!(panel.body(), ChatBody::Empty);
    assert!(panel.nudge_counted(true));
    panel.toggle_usage();
    let footer = panel.footer();
    assert!(footer.nudge && footer.composer && footer.usage);
    let request = panel.reflect_now("skills/thock/reflect.md");
    assert_eq!(request.kickoff.as_deref(), Some("Read and execute skills/thock/reflect.md"));
    assert!(!panel.footer().nudge);
}

fn question_panel() -> (ChatPanel, Vec<ThreadEntry>) {
    let mut panel = ChatPanel::new();
    panel.selected = Some(ItemKey::Entry(1));
    (panel, vec![ThreadEntry::UserMessage, ThreadEntry::Elicitation("q1".to_string())])
}

#[test]
fn thread_events_ask_for_one_thing_each() {
    let mut panel = ChatPanel::new();
    panel.attach_session(LaunchRequest::conversation(), 0);
    let mut step = |event: ThreadEvent| panel.handle_thread_event(event, true);
    assert_eq!(step(ThreadEvent::ToolAuthorizationRequested), ThreadStep::Authorize);
    assert_eq!(step(ThreadEvent::NewEntry), ThreadStep::ShowEntries { scroll: true });
    assert_eq!(step(ThreadEvent::ElicitationRequested), ThreadStep::PrepareQuestion);
    assert_eq!(step(ThreadEvent::Stopped), ThreadStep::RefreshAllowance);
    assert_eq!(step(ThreadEvent::Other), ThreadStep::Nothing);
    assert_eq!(
        panel.handle_thread_event(ThreadEvent::EntryUpdated, false),
        ThreadStep::ShowEntries { scroll: false }
    );
    assert!(panel.session.as_ref().unwrap().turn_failure.is_none());
    assert_eq!(panel.handle_thread_event(ThreadEvent::LoadError, false), ThreadStep::Nothing);
    assert!(panel.session.as_ref().unwrap().turn_failure.unwrap().retryable);
    panel.handle_thread_event(ThreadEvent::Refusal, false);
    let failure = panel.session.as_ref().unwrap().turn_failure.unwrap();
    assert_eq!(failure.message, "The Thock Agent decided not to do that.");
    assert!(!failure.retryable);
}

#[test]
fn the_confirmed_question_is_the_focused_or_the_selected_one() {
    let (panel, entries) = question_panel();
    let pending = vec!["q1".to_string()];
    assert_eq!(panel.selected_pending_elicitation(&entries, &pending).as_deref(), Some("q1"));
    assert_eq!(panel.selected_pending_elicitation(&entries, &[]), None);
    let confirm = |answer_box: Option<&str>, message_box: bool| {
        panel.pending_elicitation_for_confirm(answer_box, message_box, &entries, &pending)
    };
    assert_eq!(confirm(Some("q2"), false).as_deref(), Some("q2"));
    assert_eq!(confirm(None, true), None);
    assert_eq!(confirm(None, false).as_deref(), Some("q1"));
}

#[test]
fn arrows_step_a_question_and_open_an_activity() {
    let (mut panel, _) = question_panel();
    let option = |value: &str| (value.to_string(), value.to_string());
    let shape = ElicitationShape::Choice {
        property: "p".to_string(),
        options: vec![option("a"), option("b")],
    };
    panel.expand_or_cycle(&[], Some(("q1", &shape)), true);
    assert_eq!(panel.choice("q1"), Some(1));
    panel.expand_or_cycle(&[], Some(("q1", &shape)), true);
    assert_eq!(panel.choice("q1"), Some(1));
    panel.expand_or_cycle(&[], Some(("q1", &shape)), false);
    assert_eq!(panel.choice("q1"), Some(0));
    panel.cycle_elicitation_choice("q1", &ElicitationShape::Confirm, true);
    assert_eq!(panel.choice("q1"), Some(0));

    let items = build_items(vec![tool("a"), tool("b")]);
    panel.selected = Some(ItemKey::Activity("b".to_string()));
    panel.expand_or_cycle(&items, None, true);
    assert_eq!(panel.expanded, ["a"]);
    panel.expand_or_cycle(&items, None, false);
    assert!(panel.expanded.is_empty());
}

#[test]
fn opening_an_activity_shows_the_note_it_wrote() {
    let call = |id: &str, kind: ToolKind, path: &str| {
        ThreadEntry::ToolCall(ToolCall {
            id: id.to_string(),
            kind,
            status: CallStatus::Completed,
            location: Some(path.to_string()),
            label: String::new(),
            tool_name: None,
        })
    };
    let entries = vec![
        call("a", ToolKind::Read, "/vault/read.md"),
        call("b", ToolKind::Edit, "/vault/written.md"),
    ];
    let items = items_of_entries(&entries);
    let mut panel = ChatPanel::new();
    panel.selected = Some(ItemKey::Activity("b".to_string()));
    assert_eq!(panel.open_selected_entry(&items, &entries), None);
    panel.attach_session(LaunchRequest::conversation(), 0);
    panel.selected = Some(ItemKey::Activity("b".to_string()));
    let path = panel.open_selected_entry(&items, &entries);
    assert_eq!(path.as_deref(), Some("/vault/written.md"));
    panel.selected = Some(ItemKey::Entry(0));
    assert_eq!(panel.open_selected_entry(&items, &entries), None);
}

#[test]
fn rows_show_what_was_said() {
    let answer = ThreadEntry::AssistantMessage(vec![Chunk::Thought, Chunk::Message]);
    assert_eq!(entry_body(Some(&answer)), EntryBody::Prose(vec![1]));
    assert_eq!(entry_body(Some(&ThreadEntry::UserMessage)), EntryBody::UserMessage);
    assert_eq!(
        entry_body(Some(&ThreadEntry::CompletedPlan(1))),
        EntryBody::Line("Finished a plan of 1 step.".to_string())
    );
    assert_eq!(
        entry_body(Some(&ThreadEntry::ContextCompaction)),
        EntryBody::Line("Tidied up the conversation to keep going.".to_string())
    );
    assert_eq!(entry_body(None), EntryBody::Nothing);
}

#[test]
fn the_focus_follows_the_view() {
    let mut panel = ChatPanel::new();
    assert_eq!(panel.focus_target(), FocusTarget::List);
    panel.open_connect();
    assert_eq!(panel.focus_target(), FocusTarget::InviteCode);
    panel.nudge_counted(true);
    panel.dismiss_memory_nudge();
    assert!(!panel.memory_nudge_due);
    panel.set_mode(ConnectionMode::Byo);
    assert_eq!(panel.effective_mode(), ConnectionMode::Byo);
}

#[test]
fn failures_beside_the_chat_are_told() {
    assert_eq!(
        chat_failed(ChatFailure::Credential, "locked"),
        "Connected, but the credential couldn't be saved to your keychain; you will need to \
         connect again next time."
    );
    assert_eq!(
        chat_failed(ChatFailure::Choice, "full"),
        "Couldn't save the agent choice: full"
    );
    assert_eq!(
        chat_failed(ChatFailure::Disconnect, "offline"),
        "Disconnected here, but Thock Plus couldn't be told: offline"
    );
}
