use thock::agent::{
    build_launch, detect_installed_agents, known_agents, load_global_agent_field, load_global_command,
    resolved_command, run_skill_kickoff, save_global_command, AgentConfig, CommandSource,
    ConnectedAgent, KnownAgent, LaunchError, ModelTier,
};

/// The lead agent, as the host names it.
fn lead() -> KnownAgent {
    KnownAgent { program: "coder".to_string(), display_name: "Coder".to_string() }
}

#[test]
fn build_launch_appends_kickoff() {
    let launch = build_launch("coder", Some("Read and execute skills/x.md")).unwrap();
    assert_eq!(launch.program, "coder");
    assert_eq!(launch.args, vec!["Read and execute skills/x.md"]);
}

#[test]
fn build_launch_with_extra_args() {
    let launch = build_launch("my-agent --profile personal", Some("go")).unwrap();
    assert_eq!(launch.program, "my-agent");
    assert_eq!(launch.args, vec!["--profile", "personal", "go"]);
}

#[test]
fn build_launch_substitutes_placeholder() {
    let launch = build_launch("my-agent --prompt={prompt} --yes", Some("do it")).unwrap();
    assert_eq!(launch.program, "my-agent");
    assert_eq!(launch.args, vec!["--prompt=do it", "--yes"]);
}

#[test]
fn build_launch_without_kickoff_drops_placeholder() {
    let launch = build_launch("my-agent {prompt} --yes", None).unwrap();
    assert_eq!(launch.program, "my-agent");
    assert_eq!(launch.args, vec!["--yes"]);
}

#[test]
fn build_launch_without_kickoff_appends_nothing() {
    let launch = build_launch("coder --continue", None).unwrap();
    assert_eq!(launch.program, "coder");
    assert_eq!(launch.args, vec!["--continue"]);
}

#[test]
fn build_launch_quoted_command() {
    let launch = build_launch(r#"coder --append-system-prompt "be kind""#, None).unwrap();
    assert_eq!(launch.args, vec!["--append-system-prompt", "be kind"]);
}

#[test]
fn build_launch_rejects_empty_and_unparseable() {
    assert!(build_launch("", None).is_err());
    assert!(build_launch("   ", None).is_err());
    assert!(build_launch("coder \"unbalanced", None).is_err());
    // A command that is only a placeholder resolves to nothing without a
    // kickoff.
    assert!(build_launch("{prompt}", None).is_err());
}

#[test]
fn launch_errors_say_what_is_wrong() {
    let error = build_launch("", None).unwrap_err();
    assert_eq!(error, LaunchError::Empty);
    assert_eq!(error.message(""), "the agent command \"\" is empty");
    let error = build_launch("coder \"open", None).unwrap_err();
    assert_eq!(error, LaunchError::Unparseable);
    assert_eq!(
        error.message("coder \"open"),
        "couldn't parse the agent command \"coder \\\"open\" (unbalanced quotes?)"
    );
}

#[test]
fn global_command_roundtrip() {
    assert_eq!(load_global_agent_field("", "command"), None);

    let raw = save_global_command("", "coder").unwrap();
    assert_eq!(load_global_agent_field(&raw, "command"), Some("coder".to_string()));

    let raw = save_global_command(&raw, "gemini --yolo").unwrap();
    assert_eq!(load_global_agent_field(&raw, "command"), Some("gemini --yolo".to_string()));
    assert_eq!(load_global_command(&raw), Some("gemini --yolo".to_string()));
}

#[test]
fn global_settings_preserve_unknown_fields() {
    let raw = "top_level = true\n\n[future_section]\nkey = 1\n\n[agent]\ncommand = \"coder\"\nfuture_key = \"x\"\n";
    assert_eq!(load_global_agent_field(raw, "command"), Some("coder".to_string()));

    // A save by this (possibly older) build must not erase fields written
    // by a newer one.
    let raw = save_global_command(raw, "gemini").unwrap();
    assert_eq!(load_global_agent_field(&raw, "command"), Some("gemini".to_string()));
    assert!(raw.contains("future_section"), "section erased: {raw}");
    assert!(raw.contains("future_key"), "agent key erased: {raw}");
    assert!(raw.contains("top_level"), "top-level key erased: {raw}");
}

#[test]
fn blank_global_command_means_not_connected() {
    assert_eq!(load_global_agent_field("[agent]\ncommand = \"  \"\n", "command"), None);
}

#[test]
fn fast_tier_prefers_the_mapping_then_derives_then_falls_back() {
    let agent = |command: &str, fast_command: Option<&str>| ConnectedAgent {
        command: command.to_string(),
        fast_command: fast_command.map(str::to_string),
        source: CommandSource::Global,
    };

    // The default tier never touches the fast mapping.
    assert_eq!(
        agent("coder", Some("coder --model haiku")).command_for(ModelTier::Default, &lead().program),
        "coder"
    );
    // A configured fast_command wins for any CLI.
    assert_eq!(
        agent("gemini", Some("gemini --model flash")).command_for(ModelTier::Fast, &lead().program),
        "gemini --model flash"
    );
    // coder derives --model haiku when nothing is configured, flags and
    // paths included.
    assert_eq!(agent("coder", None).command_for(ModelTier::Fast, &lead().program), "coder --model haiku");
    assert_eq!(
        agent("/usr/local/bin/coder --continue", None).command_for(ModelTier::Fast, &lead().program),
        "/usr/local/bin/coder --continue --model haiku"
    );
    // A command that already pins a model is the user's explicit choice.
    assert_eq!(
        agent("coder --model opus", None).command_for(ModelTier::Fast, &lead().program),
        "coder --model opus"
    );
    // Unknown CLIs never get guessed flags: fast falls back to normal.
    assert_eq!(agent("codex", None).command_for(ModelTier::Fast, &lead().program), "codex");
}

#[test]
fn global_fast_command_reads_from_the_agent_table() {
    let raw = "[agent]\ncommand = \"coder\"\nfast_command = \"coder --model haiku\"\n";
    assert_eq!(
        load_global_agent_field(raw, "fast_command"),
        Some("coder --model haiku".to_string())
    );
    // Saving the command keeps the fast mapping.
    let raw = save_global_command(raw, "gemini").unwrap();
    assert_eq!(
        load_global_agent_field(&raw, "fast_command"),
        Some("coder --model haiku".to_string())
    );
}

#[test]
fn run_skill_kickoff_is_a_pointer() {
    assert_eq!(
        run_skill_kickoff("skills/timeline/wrap-today.md"),
        "Read and execute skills/timeline/wrap-today.md"
    );
}

#[test]
fn known_agents_are_detected_in_order() {
    let present = vec!["codex".to_string(), "vim".to_string(), "coder".to_string()];
    let found: Vec<String> = detect_installed_agents(&lead(), &present)
        .into_iter()
        .map(|a| a.display_name)
        .collect();
    assert_eq!(found, ["Coder", "Codex"]);
}

#[test]
fn the_vault_command_wins_over_the_global_one() {
    let vault = AgentConfig {
        command: Some("codex".to_string()),
        fast_command: None,
    };
    let agent = resolved_command(
        Some(&vault),
        Some("coder".to_string()),
        Some("coder --model haiku".to_string()),
    )
    .unwrap();
    assert_eq!(agent.command, "codex");
    assert_eq!(agent.source, CommandSource::Vault);
    assert_eq!(agent.fast_command.as_deref(), Some("coder --model haiku"));
    assert_eq!(resolved_command(None, None, Some("x".to_string())), None);
}

#[test]
fn settings_that_are_no_toml_are_not_saved_over() {
    assert_eq!(save_global_command("not [valid", "coder"), None);
    assert_eq!(load_global_command("not [valid"), None);
}

#[test]
fn three_agents_are_known() {
    let agents = known_agents(&lead());
    let shown: Vec<(&str, &str)> =
        agents.iter().map(|a| (a.program.as_str(), a.display_name.as_str())).collect();
    assert_eq!(shown, [("coder", "Coder"), ("gemini", "Gemini CLI"), ("codex", "Codex")]);
}

#[test]
fn saving_keeps_values_of_every_kind() {
    let raw = "flag = true\nwhen = 2026-09-01\nratio = 0.5\nlist = [1, \"a\"]\n\n\
               [agent]\nretries = 3\n\n[[group]]\nname = \"x\"\n";
    let text = save_global_command(raw, "gemini").unwrap();
    let mut before = raw.parse::<toml::Table>().unwrap();
    let after = text.parse::<toml::Table>().unwrap();
    before["agent"].as_table_mut().unwrap().insert("command".to_string(), "gemini".into());
    assert_eq!(before, after);
    // An entry of that name that is no table gives way to one.
    let text = save_global_command("agent = 1\n", "gemini").unwrap();
    assert_eq!(text, "[agent]\ncommand = \"gemini\"\n");
}

#[test]
fn what_cannot_be_written_is_refused() {
    let quotes = |n: usize| "\"".repeat(n);
    assert!(save_global_command("", &quotes(255)).is_some());
    assert_eq!(save_global_command("", &quotes(256)), None);
    assert_eq!(save_global_command("", &"'".repeat(256)), None);
    // Broken up, they are fine.
    let text = save_global_command("", &format!("{} {}", quotes(200), quotes(200))).unwrap();
    let expected = format!("{} {}", quotes(200), quotes(200));
    assert_eq!(load_global_command(&text), Some(expected));
    // As many in what is there already.
    let raw = format!("x = '{}'\n", quotes(256));
    assert_eq!(save_global_command(&raw, "gemini"), None);
    // Nested tables up to the depth that is read again, and below it.
    let nested = |n: usize| {
        let path = vec!["a"; n].join(".");
        format!("[{path}]\n[{path}.z]\n")
    };
    let text = save_global_command(&nested(78), "gemini").unwrap();
    assert!(text.parse::<toml::Table>().is_ok());
    let path = vec!["a"; 79].join(".");
    let deep = format!("[{path}]\nx = {{ y = {{}} }}\n");
    assert!(save_global_command(&deep, "gemini").is_some());
    let deeper = format!("[{path}]\n{path} = {{ {path} = 1 }}\n");
    assert!(save_global_command(&deeper, "gemini").is_some());
    // A nested table with the key that the writer keeps for itself.
    let raw = "[t]\nb = 1\n\"$__toml_private_datetime\" = \"x\"\n";
    let text = save_global_command(raw, "gemini").unwrap();
    assert!(text.contains("$__toml_private_datetime"), "{text}");
}
