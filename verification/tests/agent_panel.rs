use thock::agent::{CommandSource, ConnectedAgent, KnownAgent, ModelTier};
use thock::agent_panel::{
    agent_failed, AgentFailure,
    connect_body, empty_state, prompt_note, run_skill_by_id, runnable_skills, AgentBody,
    AgentPanel, ConnectBody, ConnectFlow, LaunchRequest, LaunchStep, PanelView, RunSkillPicker,
    SaveStep,
};
use thock::hosted_agent::{RoutineManifest, RoutineSkill};

fn skill(id: &str, name: &str, model: ModelTier) -> RoutineSkill {
    RoutineSkill {
        id: id.to_string(),
        name: name.to_string(),
        file: format!("skills/{id}.md"),
        model,
        summary: String::new(),
    }
}

fn routines() -> Vec<RoutineManifest> {
    let routine = |name: &str, skills: Vec<RoutineSkill>| RoutineManifest {
        id: name.to_string(),
        name: name.to_string(),
        doc: String::new(),
        skills,
    };
    vec![
        routine("Daily", vec![skill("wrap", "Wrap Today", ModelTier::Default)]),
        routine("Empty", vec![]),
        routine(
            "Inbox",
            vec![
                skill("triage", "Triage", ModelTier::Fast),
                skill("wrap", "Shadowed", ModelTier::Default),
            ],
        ),
    ]
}

fn agent(command: &str) -> ConnectedAgent {
    ConnectedAgent {
        command: command.to_string(),
        fast_command: None,
        source: CommandSource::Global,
    }
}

fn coder() -> KnownAgent {
    KnownAgent {
        program: "coder".to_string(),
        display_name: "Coder".to_string(),
    }
}

fn in_vault() -> AgentPanel {
    let mut panel = AgentPanel::new();
    panel.has_vault = true;
    panel
}

#[test]
fn skills_run_by_the_first_match_of_their_id() {
    let routines = routines();
    assert_eq!(
        run_skill_by_id(Some(&routines), "wrap"),
        Ok(LaunchRequest::run_skill("Wrap Today", "skills/wrap.md", ModelTier::Default))
    );
    let triage = run_skill_by_id(Some(&routines), "triage").unwrap();
    assert_eq!(triage.kickoff.as_deref(), Some("Read and execute skills/triage.md"));
    assert_eq!(triage.tier, ModelTier::Fast);
    assert_eq!(
        run_skill_by_id(Some(&routines), "gone"),
        Err("No enabled Routine skill \"gone\" in this vault.".to_string())
    );
    assert_eq!(
        run_skill_by_id(None, "wrap"),
        Err("This workspace isn't a Thock vault, so there are no skills to run.".to_string())
    );
}

#[test]
fn the_picker_offers_every_skill() {
    let routines = routines();
    let labels: Vec<String> = runnable_skills(&routines).into_iter().map(|s| s.label).collect();
    assert_eq!(labels, ["Wrap Today — Daily", "Triage — Inbox", "Shadowed — Inbox"]);
    assert_eq!(
        RunSkillPicker::open(Some(&[])).err(),
        Some("No Routine skills are installed in this vault.")
    );
    let mut picker = RunSkillPicker::open(Some(&routines)).ok().unwrap();
    picker.update_matches("", vec![]);
    assert_eq!(picker.matches, [0, 1, 2]);
    picker.selected_index = 2;
    picker.update_matches("tri", vec![1]);
    assert_eq!((picker.matches.clone(), picker.selected_index), (vec![1], 0));
    assert_eq!(picker.confirm().unwrap().title, "Triage");
    picker.update_matches("zzz", vec![]);
    assert!(picker.confirm().is_none());
}

#[test]
fn launches_start_numbered_sessions() {
    let mut panel = in_vault();
    let request = LaunchRequest::run_skill("Triage", "skills/triage.md", ModelTier::Fast);
    let step = panel.launch(request, Some(agent("coder")), "coder");
    let LaunchStep::Start { session_id, task_id, title, label, launch } = step else {
        panic!("expected a start");
    };
    assert_eq!((session_id, task_id.as_str(), title.as_str()), (0, "thock-agent-0", "Triage"));
    assert_eq!(launch.program, "coder");
    assert_eq!(launch.args, ["--model", "haiku", "Read and execute skills/triage.md"]);
    assert_eq!(label, "coder --model haiku 'Read and execute skills/triage.md'");
    panel.add_session(session_id, title);
    assert_eq!(panel.body(), AgentBody::Session(0));

    let step = panel.launch(LaunchRequest::conversation(), Some(agent("coder \"x")), "coder");
    assert_eq!(
        step,
        LaunchStep::Message(
            "Couldn't launch the agent: couldn't parse the agent command \"coder \\\"x\" \
             (unbalanced quotes?)"
                .to_string()
        )
    );
    panel.has_vault = false;
    assert!(matches!(
        panel.launch(LaunchRequest::conversation(), None, "coder"),
        LaunchStep::Message(_)
    ));
    assert_eq!(panel.body(), AgentBody::NoVault);
}

#[test]
fn a_nul_in_the_command_leaves_the_program_as_its_label() {
    let mut panel = in_vault();
    let request = LaunchRequest {
        title: "x".to_string(),
        kickoff: Some("a\0b".to_string()),
        tier: ModelTier::Default,
    };
    let LaunchStep::Start { label, .. } = panel.launch(request, Some(agent("coder --x")), "coder") else {
        panic!("expected a start");
    };
    assert_eq!(label, "coder");
}

#[test]
fn sessions_come_and_go() {
    let mut panel = in_vault();
    panel.next_session_id = 3;
    for (id, title) in [(0, "a"), (1, "b"), (2, "c")] {
        panel.add_session(id, title.to_string());
    }
    assert_eq!(panel.active_session, 2);
    panel.remove_session(2);
    assert_eq!(panel.active_session, 1);
    panel.activate(0);
    assert_eq!(panel.active_session, 0);
    panel.remove_session(9);
    assert_eq!(panel.sessions.len(), 2);
    panel.remove_session(0);
    panel.remove_session(1);
    assert_eq!((panel.active_session, panel.body()), (0, AgentBody::Empty));
}

#[test]
fn an_unconnected_launch_continues_after_connecting() {
    let mut panel = in_vault();
    let step = panel.launch(LaunchRequest::conversation(), None, "coder");
    assert_eq!(step, LaunchStep::Connect);
    assert_eq!(panel.body(), AgentBody::Connect);
    assert_eq!(
        panel.save_connection("  "),
        SaveStep::Message("Enter a command to connect an agent.".to_string())
    );
    assert_eq!(
        panel.save_connection("a \"b"),
        SaveStep::Message(
            "That command can't be used: couldn't parse the agent command \"a \\\"b\" \
             (unbalanced quotes?)"
                .to_string()
        )
    );
    assert_eq!(panel.save_connection(" coder "), SaveStep::ForAll("coder".to_string()));
    panel.view = PanelView::Connect(ConnectFlow { detected: None, only_this_vault: true });
    assert_eq!(panel.save_connection("coder"), SaveStep::ForVault("coder".to_string()));
    assert_eq!(panel.connection_saved(), Some(LaunchRequest::conversation()));
    assert_eq!(panel.view, PanelView::Sessions);
    panel.launch(LaunchRequest::conversation(), None, "coder");
    panel.cancel_connect();
    assert_eq!(panel.connection_saved(), None);
}

#[test]
fn the_connect_flow_lists_what_was_found() {
    let mut panel = in_vault();
    panel.open_connect();
    let PanelView::Connect(flow) = &panel.view else {
        panic!("expected the flow");
    };
    assert_eq!(connect_body(flow), ConnectBody::Hint("Looking for installed agents…"));
    panel.agents_detected(vec![coder()]);
    let PanelView::Connect(flow) = &panel.view else {
        panic!("expected the flow");
    };
    assert_eq!(
        connect_body(flow),
        ConnectBody::Agents(vec![(
            "thock-connect-coder".to_string(),
            "Coder (coder)".to_string(),
            "coder".to_string(),
        )])
    );
    let none = ConnectFlow { detected: Some(vec![]), only_this_vault: false };
    assert_eq!(
        connect_body(&none),
        ConnectBody::Hint("No known agents found on PATH. Enter a command below.")
    );
    assert_eq!(
        prompt_note(),
        "The kickoff prompt is appended as the last argument, or replaces {prompt} if present."
    );
    let state = empty_state(&None, "Coder");
    assert_eq!(state.buttons, ["Connect Your Agent"]);
    assert_eq!(
        state.caption,
        "Thock launches your own CLI agent — Coder, Gemini, Codex — in a terminal beside your notes."
    );
    let vault_agent = ConnectedAgent { source: CommandSource::Vault, ..agent("codex") };
    let state = empty_state(&Some(vault_agent), "Coder");
    assert_eq!((state.title.as_str(), state.caption.as_str()), ("codex", "Connected agent · this vault"));
}

#[test]
fn tabs_show_the_active_session() {
    let mut panel = AgentPanel::new();
    panel.next_session_id = 13;
    panel.add_session(3, "Wrap Today".to_string());
    panel.add_session(12, "Conversation".to_string());
    let tabs = panel.session_tabs();
    assert_eq!(tabs.len(), 2);
    assert_eq!(tabs[0].id, "thock-agent-tab-3");
    assert_eq!(tabs[1].close_id, "thock-agent-tab-close-12");
    assert_eq!(tabs[1].title, "Conversation");
    assert_eq!((tabs[0].active, tabs[1].active), (false, true));
}

#[test]
fn picker_rows_show_a_summary_where_there_is_one() {
    let mut routines = routines();
    routines[0].skills[0].summary = "Closes the day.".to_string();
    let mut picker = RunSkillPicker::open(Some(&routines)).ok().unwrap();
    picker.update_matches("", vec![]);
    let row = picker.row_at(0).unwrap();
    assert_eq!(row, ("Wrap Today — Daily".to_string(), Some("Closes the day.".to_string())));
    assert_eq!(picker.row_at(1).unwrap().1, None);
    assert_eq!(picker.row_at(9), None);
}

#[test]
fn the_choice_of_a_single_vault_can_be_made_and_taken_back() {
    let mut panel = in_vault();
    panel.toggle_only_this_vault();
    assert!(matches!(panel.view, PanelView::Sessions));
    panel.view = PanelView::Connect(ConnectFlow { detected: None, only_this_vault: false });
    panel.toggle_only_this_vault();
    assert_eq!(panel.save_connection("coder"), SaveStep::ForVault("coder".to_string()));
    panel.toggle_only_this_vault();
    assert_eq!(panel.save_connection("coder"), SaveStep::ForAll("coder".to_string()));
}

#[test]
fn the_vault_box_is_shown_in_a_vault_only() {
    let mut panel = in_vault();
    assert_eq!(panel.only_this_vault(), None);
    panel.view = PanelView::Connect(ConnectFlow { detected: None, only_this_vault: false });
    assert_eq!(panel.only_this_vault(), Some(false));
    panel.toggle_only_this_vault();
    assert_eq!(panel.only_this_vault(), Some(true));
    panel.has_vault = false;
    assert_eq!(panel.only_this_vault(), None);
}

#[test]
fn failures_after_the_decision_are_told() {
    assert_eq!(agent_failed(AgentFailure::Start, "no tty"), "Couldn't start the agent: no tty");
    assert_eq!(agent_failed(AgentFailure::Save, "full"), "Couldn't save the connection: full");
}
