use thock::agent::ModelTier;
use thock::hosted_agent::{
    compose_vault_context, config_dir_for, env_get, gather_vault_context, harness_in, install_args, install_dir,
    launch_command, pi_config_dir, pi_entry, pi_settings, write_pi_config, ConfigStep, InstalledHarness,
    LanguageConfig, LaunchCommandError, RoutineManifest, RoutineSkill, VaultFacts,
};
use thock::moments::Date;
use thock::paths::{join_path, path_parent_on, relative_to, with_slashes};

fn harness() -> InstalledHarness {
    InstalledHarness {
        node_binary: "/managed/node/bin/node".to_string(),
        pi_acp_entry: "/agents/thock-hosted/node_modules/pi-acp/dist/index.js".to_string(),
        pi_command: "/agents/thock-hosted/node_modules/.bin/pi".to_string(),
        bin_dir: "/agents/thock-hosted/node_modules/.bin".to_string(),
    }
}

fn pair(key: &str, value: &str) -> (String, String) {
    (key.to_string(), value.to_string())
}

#[test]
fn launch_command_runs_the_adapter_under_managed_node_with_the_key_in_env() {
    let base = vec![pair("PATH", "/usr/bin:/bin"), pair("HOME", "/Users/me")];
    let command =
        launch_command(&harness(), "/data/pi/default", "sk-or-v1-x", base, None, false)
            .unwrap();
    assert_eq!(command.path, "/managed/node/bin/node");
    assert_eq!(
        command.args,
        vec!["/agents/thock-hosted/node_modules/pi-acp/dist/index.js".to_string()]
    );
    let env = |key: &str| env_get(&command.env, key).unwrap();
    assert_eq!(env("OPENROUTER_API_KEY"), "sk-or-v1-x");
    assert_eq!(env("PI_CODING_AGENT_DIR"), "/data/pi/default");
    assert_eq!(env("PI_ACP_PI_COMMAND"), "/agents/thock-hosted/node_modules/.bin/pi");
    assert_eq!(env("PI_SKIP_VERSION_CHECK"), "1");
    assert_eq!(env("HOME"), "/Users/me", "the shell environment is kept");
    let path = env("PATH");
    assert_eq!(
        path.split(':').collect::<Vec<_>>(),
        vec![
            "/agents/thock-hosted/node_modules/.bin",
            "/managed/node/bin",
            "/usr/bin",
            "/bin",
        ],
        "the shim and the managed node must come first so `#!/usr/bin/env node` resolves"
    );
}

#[test]
fn launches_without_a_usable_node_folder_fail() {
    let rootless = InstalledHarness { node_binary: "/".to_string(), ..harness() };
    assert_eq!(
        launch_command(&rootless, "/data", "k", vec![], None, false),
        Err(LaunchCommandError::NoParent)
    );
    let split = InstalledHarness { bin_dir: "/a:b".to_string(), ..harness() };
    assert_eq!(
        launch_command(&split, "/data", "k", vec![], None, false),
        Err(LaunchCommandError::Unjoinable)
    );
}

#[test]
fn pi_settings_pin_the_provider_and_model_and_stay_quiet() {
    let settings: serde_json::Value =
        serde_json::from_str(&pi_settings("google/gemini-2.5-flash")).unwrap();
    assert_eq!(settings["defaultProvider"], "openrouter");
    assert_eq!(settings["defaultModel"], "google/gemini-2.5-flash");
    assert_eq!(settings["quietStartup"], true);
    assert_eq!(settings["defaultProjectTrust"], "never");
    assert_eq!(settings["enableInstallTelemetry"], false);
}

#[test]
fn model_names_are_escaped_in_the_settings() {
    let settings: serde_json::Value = serde_json::from_str(&pi_settings("a\"b\\c")).unwrap();
    assert_eq!(settings["defaultModel"], "a\"b\\c");
}

#[test]
fn config_dirs_are_per_tier_and_per_vault() {
    let vault = "/Users/me/Thock";
    let dir = |tier, root| pi_config_dir("/data", tier, root, false);
    assert_ne!(dir(ModelTier::Default, Some(vault)), dir(ModelTier::Fast, Some(vault)));
    assert_ne!(
        dir(ModelTier::Default, Some(vault)),
        dir(ModelTier::Default, Some("/Users/me/Other")),
    );
    assert_eq!(
        dir(ModelTier::Default, Some(vault)),
        dir(ModelTier::Default, Some(vault)),
        "the same vault must resolve to the same directory across launches"
    );
    assert_eq!(dir(ModelTier::Fast, None), "/data/thock/hosted-agent/fast");
}

#[test]
fn a_vaults_hash_is_written_in_sixteen_digits() {
    assert_eq!(
        config_dir_for("/data", ModelTier::Default, Some(0x1f), false),
        "/data/thock/hosted-agent/default-000000000000001f"
    );
    let hashed = pi_config_dir("/data", ModelTier::Default, Some("/Users/me/Thock"), false);
    let digits = hashed.strip_prefix("/data/thock/hosted-agent/default-").unwrap();
    assert_eq!(digits.len(), 16);
    assert!(digits.chars().all(|c| c.is_ascii_hexdigit()), "{hashed}");
}

fn vault_at(root: &str) -> VaultFacts {
    VaultFacts {
        root: root.to_string(),
        daily_note: format!("{root}/daily/2026-09-14.md"),
        daily_template: "templates/daily.md".to_string(),
        weekly_note: Some(format!("{root}/weekly/2026-W38.md")),
        weekly_template: "templates/weekly.md".to_string(),
        backlog_file: "backlog.md".to_string(),
        soon_heading: "Soon".to_string(),
        someday_heading: "Someday".to_string(),
        completed_heading: "Completed".to_string(),
        planner_heading: "Day planner".to_string(),
        language: None,
    }
}

fn today() -> Date {
    Date { year: 2026, month: 9, day: 14 }
}

#[test]
fn context_states_the_date_the_week_and_this_week_notes() {
    let context =
        compose_vault_context(&vault_at("/Users/me/Thock"), &[], false, None, today()).unwrap();
    assert!(context.contains("Monday, 14 September 2026 (2026-09-14)"), "{context}");
    assert!(context.contains("week 2026-W38"));
    assert!(context.contains("/Users/me/Thock"));
    assert!(context.contains("`daily/2026-09-14.md`"));
    assert!(context.contains("`weekly/2026-W38.md`"));
    assert!(context.contains("`templates/daily.md`"));
    assert!(
        !context.contains("profile.md"),
        "a vault without a profile must not claim one"
    );
}

#[test]
fn context_names_the_configured_headings_not_the_english_defaults() {
    let mut vault = vault_at("/Users/me/Cofre");
    vault.backlog_file = "tarefas.md".to_string();
    vault.soon_heading = "Em breve".to_string();
    vault.someday_heading = "Algum dia".to_string();
    vault.completed_heading = "Concluído".to_string();
    vault.planner_heading = "## Hoje".to_string();
    vault.language = Some(LanguageConfig {
        tag: Some("pt-BR".to_string()),
        name: Some("Portuguese (Brazil)".to_string()),
    });
    let context = compose_vault_context(&vault, &[], true, None, today()).unwrap();
    assert!(context.contains("`tarefas.md`"));
    assert!(context.contains("`Em breve`, `Algum dia` and `Concluído`"));
    assert!(context.contains("`## Hoje` heading"));
    assert!(context.contains("**Portuguese (Brazil)** (`pt-BR`)"));
    assert!(context.contains("profile.md"));
}

#[test]
fn context_falls_back_to_mirroring_the_person_when_no_language_is_set() {
    let context =
        compose_vault_context(&vault_at("/Users/me/Thock"), &[], false, None, today()).unwrap();
    assert!(context.contains("whatever language the person writes to you in"));
}

fn timeline() -> RoutineManifest {
    RoutineManifest {
        id: "timeline".to_string(),
        name: "Daily & Weekly".to_string(),
        doc: "routines/timeline/doc.md".to_string(),
        skills: vec![RoutineSkill {
            id: "wrap-today".to_string(),
            name: "Wrap Today".to_string(),
            file: "routines/timeline/skills/wrap-today.md".to_string(),
            model: ModelTier::Default,
            summary: "Close out today's note.".to_string(),
        }],
    }
}

#[test]
fn context_lists_installed_routines_with_their_rituals() {
    let context = compose_vault_context(
        &vault_at("/Users/me/Thock"),
        &[timeline()],
        false,
        None,
        today(),
    )
    .unwrap();
    assert!(context.contains("**Daily & Weekly** — `routines/timeline/`"), "{context}");
    assert!(context.contains("`routines/timeline/doc.md`"));
    assert!(context.contains("Wrap Today (`routines/timeline/skills/wrap-today.md`)"));
}

#[test]
fn context_says_so_when_no_routine_is_installed() {
    let context =
        compose_vault_context(&vault_at("/Users/me/Thock"), &[], false, None, today()).unwrap();
    assert!(context.contains("None are installed yet"));
    assert!(context.contains("skills/thock/new-routine.md"));
}

#[test]
fn context_carries_the_memory_index_when_there_is_one() {
    let index = "# What Thock has learned\n\n## People\n- **Ana**, your manager. → people/ana.md";
    let context = compose_vault_context(
        &vault_at("/Users/me/Thock"),
        &[],
        false,
        Some(index),
        today(),
    )
    .unwrap();
    assert!(context.contains("## What you already know"));
    assert!(context.contains("- **Ana**, your manager. → people/ana.md"));
    assert!(context.contains("`memory/inbox.md`"));
    assert!(context.contains("Never edit `memory/index.md`"));
}

#[test]
fn context_says_nothing_is_known_yet_without_an_index() {
    let context =
        compose_vault_context(&vault_at("/Users/me/Thock"), &[], false, None, today()).unwrap();
    assert!(context.contains("## What you already know"));
    assert!(context.contains("Nothing yet"));
    assert!(context.contains("`memory/inbox.md`"));
}

#[test]
fn a_workspace_that_is_not_a_vault_gets_no_context() {
    assert!(gather_vault_context(None, &[], false, None, today()).is_none());
    let vault = vault_at("/Users/me/Thock");
    assert!(gather_vault_context(Some(&vault), &[], false, None, today()).is_some());
}

#[test]
fn a_day_that_is_none_gives_no_context() {
    let vault = vault_at("/Users/me/Thock");
    let never = Date { year: 2026, month: 2, day: 30 };
    assert!(compose_vault_context(&vault, &[], false, None, never).is_none());
}

#[test]
fn installs_name_what_is_missing() {
    assert_eq!(install_args(false, false), None);
    let args = install_args(true, false).unwrap();
    assert!(args.contains(&"pi-acp@0.0.33".to_string()), "{args:?}");
    assert_eq!(install_dir("/agents", false), "/agents/thock-hosted");
    let found = harness_in("/agents/thock-hosted", "/managed/node/bin/node", false);
    assert_eq!(found.pi_command, "/agents/thock-hosted/node_modules/.bin/pi");
}

#[test]
fn agent_settings_are_written_with_or_without_a_vault() {
    let steps = write_pi_config("/d", "m", "prompt", "guard", None, false);
    assert!(matches!(&steps[0], ConfigStep::CreateDir(_)), "{steps:?}");
    assert!(steps.iter().any(|s| matches!(s, ConfigStep::Remove(_))), "{steps:?}");
    let steps = write_pi_config("/d", "m", "prompt", "guard", Some("context"), false);
    assert!(!steps.iter().any(|s| matches!(s, ConfigStep::Remove(_))), "{steps:?}");
}

#[test]
fn the_harness_is_told_by_its_entry_point() {
    assert_eq!(
        pi_entry("/agents/thock-hosted", false),
        "/agents/thock-hosted/node_modules/@earendil-works/pi-coding-agent/dist/bundle/cli.js"
    );
}

#[test]
fn on_windows_the_search_path_goes_by_semicolons() {
    let harness = InstalledHarness {
        node_binary: "C:\\managed\\node\\node.exe".to_string(),
        bin_dir: "C:\\agents;old\\.bin".to_string(),
        ..harness()
    };
    let base = vec![pair("PATH", "C:\\Windows;\"C:\\a;b\";\"C:\\plain\"")];
    let command = launch_command(&harness, "C:\\data", "k", base, None, true).unwrap();
    assert_eq!(
        env_get(&command.env, "PATH").unwrap(),
        "\"C:\\agents;old\\.bin\";C:\\managed\\node;C:\\Windows;\"C:\\a;b\";C:\\plain"
    );
    let quoted = InstalledHarness { bin_dir: "C:\\a\"b".to_string(), ..harness };
    assert_eq!(
        launch_command(&quoted, "C:\\data", "k", vec![], None, true),
        Err(LaunchCommandError::Unjoinable)
    );
}

#[test]
fn folders_on_windows_go_by_both_slashes_and_a_drive() {
    assert_eq!(path_parent_on("C:\\node.exe", true).as_deref(), Some("C:\\"));
    assert_eq!(path_parent_on("C:/a\\b/node.exe", true).as_deref(), Some("C:/a\\b"));
    assert_eq!(path_parent_on("C:\\", true), None);
    assert_eq!(path_parent_on("C:node.exe", true).as_deref(), Some("C:"));
    assert_eq!(path_parent_on("a\\b", false).as_deref(), Some(""));
    assert_eq!(with_slashes("C:\\a\\b.md", true), "C:/a/b.md");
    assert_eq!(with_slashes("a\\b.md", false), "a\\b.md");
}

#[test]
fn paths_on_windows_are_joined_with_backslashes() {
    let found = harness_in("C:\\agents", "C:\\node\\node.exe", true);
    assert_eq!(found.pi_command, "C:\\agents\\node_modules\\.bin\\pi.cmd");
    assert_eq!(found.pi_acp_entry, "C:\\agents\\node_modules\\pi-acp\\dist\\index.js");
    assert_eq!(install_dir("C:\\agents\\", true), "C:\\agents\\thock-hosted");
    assert_eq!(join_path("C:", "a", true), "C:a");
    assert_eq!(join_path("C:/x/", "a", true), "C:/x/a");
    assert_eq!(join_path("", "a", true), "a");
    assert_eq!(join_path("C:", "a", false), "C:/a");
}

#[test]
fn without_a_root_a_path_loses_only_its_end() {
    assert_eq!(relative_to("a/", "").as_deref(), Some("a"));
    assert_eq!(relative_to("/a/./", "").as_deref(), Some("/a"));
    assert_eq!(relative_to("//", "").as_deref(), Some("/"));
    assert_eq!(relative_to("/a/b/", "/a").as_deref(), Some("b"));
}

#[test]
fn settings_are_written_line_by_line() {
    assert_eq!(
        pi_settings("a\"\u{1f}\u{e9}"),
        "{\n  \"defaultModel\": \"a\\\"\\u001f\u{e9}\",\n  \
         \"defaultProjectTrust\": \"never\",\n  \"defaultProvider\": \"openrouter\",\n  \
         \"enableInstallTelemetry\": false,\n  \"enableSkillCommands\": false,\n  \
         \"quietStartup\": true\n}"
    );
}
