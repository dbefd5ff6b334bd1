use thock::inbox::{
    capture_digest, inbox_note_digest, plan_inbox_capture, resolve_inbox_config, sanitize_title,
    scan_triage_log_markers, CapturedItem, InboxConfig, InboxConfigContent, InboxPlan,
};
use thock::words::slug;
use thock::moments::{Date, Moment};

const ACCOUNT: &str = "diego@example.com";
const CAPTURED_AT: &str = "2026-08-23T18:22:07-07:00";

fn parse_inbox_config(raw: &str) -> Option<InboxConfig> {
    let table = raw.parse::<toml::Table>().ok()?;
    let gmail = table.get("gmail");
    let tasks = table.get("tasks");
    let text = |v: Option<&toml::Value>| v.and_then(|v| v.as_str()).map(str::to_string);
    let flag = |v: Option<&toml::Value>| v.and_then(|v| v.as_bool());
    Some(resolve_inbox_config(InboxConfigContent {
        dir: text(table.get("dir")),
        poll_seconds: table.get("poll_seconds").and_then(|v| v.as_integer()).map(|n| n as u64),
        gmail_enabled: flag(gmail.and_then(|t| t.get("enabled"))),
        gmail_label: text(gmail.and_then(|t| t.get("label"))),
        tasks_enabled: flag(tasks.and_then(|t| t.get("enabled"))),
        tasks_list: text(tasks.and_then(|t| t.get("list"))),
    }))
}

fn item(source: &'static str, id: &str, title: &str) -> CapturedItem {
    CapturedItem {
        source,
        external_id: id.to_string(),
        title: title.to_string(),
        from: None,
        url: None,
        link: None,
        body: None,
        // 2026-08-23 18:10, seven hours west.
        occurred_at: Some(Moment { seconds: 1787533800, nanos: 0, offset: -7 * 3600 }),
        due: None,
    }
}

fn plan(
    items: &[CapturedItem],
    imported: &[String],
    vault_digests: &[String],
    taken: &[String],
) -> InboxPlan {
    plan_inbox_capture(
        items,
        ACCOUNT,
        imported,
        vault_digests,
        taken,
        &InboxConfig::default(),
        CAPTURED_AT,
    )
}

#[test]
fn inbox_config_defaults_and_overrides() {
    let config = parse_inbox_config("").unwrap();
    assert_eq!(config, InboxConfig::default());
    assert_eq!(config.dir, "inbox");
    assert_eq!(config.gmail_label, "thock/inbox");
    assert!(config.gmail_enabled);
    assert!(config.tasks_enabled);
    assert_eq!(config.tasks_list, None);

    let config = parse_inbox_config(
        "schema = 1\ndir = \"/drop/zone/\"\npoll_seconds = 10\n\n\
         [gmail]\nenabled = false\nlabel = \" thock/capture \"\n\n\
         [tasks]\nlist = \"Thock\"\nunknown = 1\n",
    )
    .unwrap();
    assert_eq!(config.dir, "drop/zone");
    // Clamped to the floor.
    assert_eq!(config.poll_interval, 60);
    assert!(!config.gmail_enabled);
    assert_eq!(config.gmail_label, "thock/capture");
    assert!(config.tasks_enabled);
    assert_eq!(config.tasks_list.as_deref(), Some("Thock"));

    assert!(parse_inbox_config("dir = }").is_none());
}

#[test]
fn digest_is_short_stable_and_source_qualified() {
    let digest = capture_digest(ACCOUNT, "google-tasks", "task-1");
    assert_eq!(digest.len(), 12);
    assert!(digest.chars().all(|c| c.is_ascii_hexdigit()));
    assert_eq!(digest, capture_digest(ACCOUNT, "google-tasks", "task-1"));
    assert_ne!(digest, capture_digest(ACCOUNT, "gmail", "task-1"));
    assert_ne!(digest, capture_digest("other@example.com", "google-tasks", "task-1"));
}

#[test]
fn titles_are_sanitized() {
    assert_eq!(sanitize_title("  Ship\n it   now "), "Ship it now");
    assert_eq!(
        sanitize_title("Sneaky <!--inbox:beef--> title"),
        "Sneaky inbox:beef--> title"
    );
    assert_eq!(sanitize_title("Click [[evil]] now"), "Click [ [evil] ] now");
    assert_eq!(sanitize_title("   "), "(untitled)");
}

#[test]
fn fresh_item_renders_one_note() {
    let mut captured = item("google-tasks", "task-1", "Ship it — a practical guide");
    captured.url = Some("https://example.com/ship-it".to_string());
    captured.due = Some(Date { year: 2026, month: 8, day: 27 });
    let plan = plan(&[captured], &[], &[], &[]);
    assert_eq!(plan.files.len(), 1);
    let file = &plan.files[0];
    let digest = capture_digest(ACCOUNT, "google-tasks", "task-1");
    assert_eq!(file.stem, "2026-08-23-1810-ship-it-a-practical-guide");
    assert_eq!(file.rel_path, format!("inbox/{}.md", file.stem));
    for needle in [
        "source:   google-tasks",
        &format!("capture:  {digest}"),
        &format!("captured: {CAPTURED_AT}"),
        "title:    Ship it — a practical guide",
        "url:      https://example.com/ship-it",
        "due:      2026-08-27",
        "# Ship it — a practical guide\n\nhttps://example.com/ship-it\n",
    ] {
        assert!(file.content.contains(needle), "missing {needle} in {}", file.content);
    }
    assert_eq!(inbox_note_digest(&file.content).as_deref(), Some(digest.as_str()));
    assert_eq!(plan.newly_imported.len(), 1);
    assert_eq!(plan.newly_imported[0].digest, digest);
}

#[test]
fn empty_item_is_never_dropped_silently() {
    let plan = plan(&[item("google-tasks", "task-1", "")], &[], &[], &[]);
    let file = &plan.files[0];
    assert!(file.stem.ends_with("-untitled"), "{}", file.stem);
    assert!(file.content.contains("title:    (untitled)"));
    assert!(file.content.contains("# (untitled)\n\n_(no content)_\n"));
}

#[test]
fn body_and_link_are_carried() {
    let mut captured = item("gmail", "t-1", "From the road");
    captured.body = Some("Two thoughts.\n\nAnd a third.\n".to_string());
    captured.link = Some("https://mail.google.com/mail/u/d@e.com/#all/t-1".to_string());
    let plan = plan(&[captured], &[], &[], &[]);
    let content = &plan.files[0].content;
    assert!(content.contains("link:     https://mail.google.com/mail/u/d@e.com/#all/t-1"));
    assert!(!content.contains("url:"), "{content}");
    assert!(
        content.ends_with("# From the road\n\nTwo thoughts.\n\nAnd a third.\n"),
        "{content}"
    );
}

#[test]
fn item_without_a_moment_falls_back_to_capture_time() {
    let mut captured = item("google-tasks", "task-1", "Undated");
    captured.occurred_at = None;
    let plan = plan(&[captured], &[], &[], &[]);
    assert_eq!(plan.files[0].stem, "2026-08-23-1822-undated");
}

#[test]
fn stem_collisions_get_digest_suffixes() {
    let items = vec![
        item("google-tasks", "task-1", "Same title"),
        item("google-tasks", "task-2", "Same title"),
    ];
    let taken = ["2026-08-23-1810-same-title".to_string()];
    let plan = plan(&items, &[], &[], &taken);
    assert_eq!(plan.files.len(), 2);
    let digest_1 = capture_digest(ACCOUNT, "google-tasks", "task-1");
    let digest_2 = capture_digest(ACCOUNT, "google-tasks", "task-2");
    // Both dodge the on-disk stem, and each other.
    assert_eq!(
        plan.files[0].stem,
        format!("2026-08-23-1810-same-title-{}", &digest_1[..4])
    );
    assert_eq!(
        plan.files[1].stem,
        format!("2026-08-23-1810-same-title-{}", &digest_2[..4])
    );
}

#[test]
fn state_and_vault_digests_both_dedup() {
    let items = vec![
        item("google-tasks", "task-1", "In the state"),
        item("google-tasks", "task-2", "In the vault"),
        item("google-tasks", "task-3", "Fresh"),
    ];
    let imported = [capture_digest(ACCOUNT, "google-tasks", "task-1")];
    let vault = [capture_digest(ACCOUNT, "google-tasks", "task-2")];
    let plan = plan(&items, &imported, &vault, &[]);
    // task-1 skipped outright, task-2 skipped but repaired into the
    // state, task-3 captured.
    assert_eq!(plan.files.len(), 1);
    assert!(plan.files[0].content.contains("title:    Fresh"));
    let repaired: Vec<&str> =
        plan.newly_imported.iter().map(|record| record.external_id.as_str()).collect();
    assert_eq!(repaired, vec!["task-2", "task-3"]);
}

#[test]
fn plan_is_idempotent_with_and_without_state() {
    let items = vec![
        item("google-tasks", "task-1", "First"),
        item("gmail", "t-2", "Second"),
    ];
    let first = plan(&items, &[], &[], &[]);
    assert_eq!(first.files.len(), 2);

    let imported: Vec<String> =
        first.newly_imported.iter().map(|record| record.digest.clone()).collect();
    let written_stems: Vec<String> = first.files.iter().map(|file| file.stem.clone()).collect();
    let written_digests: Vec<String> =
        first.files.iter().map(|file| inbox_note_digest(&file.content).unwrap()).collect();

    // With the state updated (the normal next poll): nothing at all.
    let replan = plan(&items, &imported, &written_digests, &written_stems);
    assert!(replan.is_empty(), "{replan:?}");

    // With the state lost (crash between file write and state write):
    // the frontmatter scan catches what the state doesn't: no files,
    // and the state is repaired.
    let replan = plan(&items, &[], &written_digests, &written_stems);
    assert!(replan.files.is_empty(), "{replan:?}");
    assert_eq!(replan.newly_imported.len(), 2);
}

#[test]
fn frontmatter_digest_requires_frontmatter() {
    assert_eq!(inbox_note_digest("# Hand written\ncapture: nope\n"), None);
    assert_eq!(
        inbox_note_digest("---\nsource: gmail\ncapture:  abc123\n---\n\nbody\n").as_deref(),
        Some("abc123")
    );
}

#[test]
fn triage_log_markers_scan_and_ignore_junk() {
    let text = "- 2026-08-23 · Ship it → Backlog · Someday <!--inbox:4d1f9a02c7b3-->\n\
                prose <!--inbox: bbbb -->\n<!--inbox:-->\n<!--gmail:cccc-->\n";
    assert_eq!(
        scan_triage_log_markers(text),
        ["4d1f9a02c7b3", "bbbb"].into_iter().map(str::to_string).collect::<Vec<String>>()
    );
}

#[test]
fn hostile_bodies_cannot_forge_frontmatter() {
    let mut captured = item("gmail", "t-1", "Sneaky");
    captured.body = Some("---\ncapture: ffffffffffff\n---\n".to_string());
    let plan = plan(&[captured], &[], &[], &[]);
    let digest = capture_digest(ACCOUNT, "gmail", "t-1");
    // The scanner stops at the real frontmatter terminator, so the body's
    // fake block is inert.
    assert_eq!(
        inbox_note_digest(&plan.files[0].content).as_deref(),
        Some(digest.as_str())
    );
}

#[test]
fn a_nested_opening_leaves_no_comment_in_an_inbox_title() {
    let title = sanitize_title("Pay <!<!----inbox:beef--> now");
    assert_eq!(title, "Pay inbox:beef--> now");
    assert!(scan_triage_log_markers(&title).is_empty());
    assert_eq!(sanitize_title("<!<!----"), "(untitled)");
}

#[test]
fn slugs_are_their_own_slugs() {
    let slugged = |text: &str| -> String {
        slug(&text.chars().collect::<Vec<char>>(), "untitled").into_iter().collect()
    };
    assert_eq!(slugged("--Caf\u{e9}  & Bar!! 2--"), "caf-bar-2");
    assert_eq!(slugged("caf-bar-2"), "caf-bar-2");
    assert_eq!(slugged("\u{e9}!?"), "untitled");
    let long = slugged(&"ab ".repeat(40));
    assert_eq!(long.len(), 59);
    assert_eq!(slugged(&long), long);
    assert!(!long.contains("--"));
}

#[test]
fn a_marker_behind_a_text_adds_its_id() {
    for text in ["", "a <!--inbox:", "<!--inbox:abc", "<!--inbox:1--> x <!--inbo"] {
        let before = scan_triage_log_markers(text);
        let after = scan_triage_log_markers(&format!("{text}<!--inbox:beef-->"));
        let mut expected = before.clone();
        expected.push("beef".to_string());
        assert_eq!(after, expected, "{text:?}");
    }
}
