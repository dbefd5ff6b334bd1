use thock::gmail::{
    archive_frontmatter_digest, default_mappings, resolve_gmail_config, sanitize_subject,
    scan_backlog_markers, thread_marker_id, GmailConfig, GmailConfigContent, SyncContent,
    SyncMapping,
};
use thock::inbox::capture_digest;

fn parse_gmail_config(raw: &str) -> Option<GmailConfig> {
    let table = raw.parse::<toml::Table>().ok()?;
    let text = |entry: &toml::Value, key: &str| {
        entry.get(key).and_then(|v| v.as_str()).map(str::to_string)
    };
    let sync = match table.get("sync").and_then(|v| v.as_array()) {
        Some(entries) => entries
            .iter()
            .map(|entry| SyncContent { label: text(entry, "label"), path: text(entry, "path") })
            .collect(),
        None => Vec::new(),
    };
    let poll_seconds = table.get("poll_seconds").and_then(|v| v.as_integer()).map(|n| n as u64);
    Some(resolve_gmail_config(GmailConfigContent { poll_seconds, sync }))
}

#[test]
fn gmail_config_defaults_and_overrides() {
    let config = parse_gmail_config("").unwrap();
    assert_eq!(config, GmailConfig::default());
    assert_eq!(config.mappings, default_mappings());
    assert_eq!(config.mappings[0].label, "thock/backlog");
    assert_eq!(config.mappings[0].path, "archives/emails");
    assert_eq!(config.mappings[1].label, "thock/inbox");
    assert_eq!(config.mappings[1].path, "inbox");
    assert_eq!(config.poll_interval, 300);

    let config = parse_gmail_config(
        "schema = 2\npoll_seconds = 10\n\n\
         [[sync]]\nlabel = \" thock/reading \"\npath = \"/reading/queue/\"\nunknown = 1\n\n\
         [[sync]]\nlabel = \"thock/backlog\"\npath = \"archives/emails\"\n",
    )
    .unwrap();
    // Clamped to the floor; explicit entries replace the defaults
    // entirely, in order.
    assert_eq!(config.poll_interval, 60);
    assert_eq!(
        config.mappings,
        vec![
            SyncMapping {
                label: "thock/reading".to_string(),
                path: "reading/queue".to_string(),
            },
            SyncMapping {
                label: "thock/backlog".to_string(),
                path: "archives/emails".to_string(),
            },
        ]
    );

    assert!(parse_gmail_config("sync = }").is_none());
}

#[test]
fn legacy_schema_1_keys_are_ignored() {
    // An old file with top-level label, import, archive_dir and account runs
    // the default map.
    let config = parse_gmail_config(
        "account = \"d@e.com\"\nlabel = \"thock/backlog\"\nimport = \"full\"\n\
         archive_dir = \"mail\"\nschema = 1\n\n[google]\nclient_id = \"id\"\n",
    )
    .unwrap();
    assert_eq!(config.mappings, default_mappings());
    assert_eq!(config.account, None);
}

#[test]
fn invalid_and_duplicate_sync_entries_are_dropped() {
    let config = parse_gmail_config(
        "[[sync]]\nlabel = \"thock/inbox\"\npath = \"inbox\"\n\n\
         [[sync]]\nlabel = \"\"\npath = \"nowhere\"\n\n\
         [[sync]]\nlabel = \"no-path\"\n\n\
         [[sync]]\nlabel = \"THOCK/INBOX\"\npath = \"elsewhere\"\n",
    )
    .unwrap();
    assert_eq!(
        config.mappings,
        vec![SyncMapping {
            label: "thock/inbox".to_string(),
            path: "inbox".to_string(),
        }]
    );

    // Entries present but none usable: fall back to the defaults rather
    // than silently syncing nothing.
    let config = parse_gmail_config("[[sync]]\nlabel = \"only-label\"\n").unwrap();
    assert_eq!(config.mappings, default_mappings());
}

#[test]
fn legacy_digest_is_short_and_stable() {
    let digest = thread_marker_id("diego@example.com", "t-1");
    assert_eq!(digest.len(), 12);
    assert!(digest.chars().all(|c| c.is_ascii_hexdigit()));
    assert_eq!(digest, thread_marker_id("diego@example.com", "t-1"));
    assert_ne!(digest, thread_marker_id("other@example.com", "t-1"));
    assert_ne!(digest, capture_digest("diego@example.com", "gmail", "t-1"));
}

#[test]
fn backlog_markers_scan_and_ignore_junk() {
    let text = "- [ ] Pay invoice <!--gmail:4d1f9a02c7b3-->\n\
                prose <!--gmail: bbbb -->\n<!--gmail:-->\n<!--inbox:cccc-->\n";
    assert_eq!(
        scan_backlog_markers(text),
        ["4d1f9a02c7b3", "bbbb"].into_iter().map(str::to_string).collect::<Vec<String>>()
    );
}

#[test]
fn archive_frontmatter_digest_requires_frontmatter() {
    assert_eq!(archive_frontmatter_digest("# Note\nthread: nope\n"), None);
    assert_eq!(
        archive_frontmatter_digest("---\nsubject: x\nthread: abc123\n---\n\nbody\n").as_deref(),
        Some("abc123")
    );
}

#[test]
fn subjects_are_sanitized() {
    assert_eq!(sanitize_subject("Re: RE: fwd: Invoice"), "Invoice");
    assert_eq!(
        sanitize_subject("Sneaky <!--gmail:beef--> subject"),
        "Sneaky gmail:beef--> subject"
    );
    assert_eq!(sanitize_subject("  spread \n out  "), "spread out");
    assert_eq!(sanitize_subject("re: "), "(no subject)");
}

#[test]
fn a_nested_opening_leaves_no_comment_in_a_subject() {
    let subject = sanitize_subject("Re: Pay <!<!----gmail:beef--> now");
    assert_eq!(subject, "Pay gmail:beef--> now");
    assert!(scan_backlog_markers(&subject).is_empty());
    assert_eq!(sanitize_subject("<!<!----"), "(no subject)");
}

#[test]
fn a_clean_subject_is_its_own_clean_form() {
    for raw in ["Re: FW:  fwd: Invoice", "  a \n b ", "re:re:", "R<!--e: Invoice", "<!--Re: x"] {
        let once = sanitize_subject(raw);
        assert_eq!(sanitize_subject(&once), once, "{raw:?}");
        let lower = once.to_lowercase();
        assert!(!["re:", "fw:", "fwd:"].iter().any(|prefix| lower.starts_with(prefix)), "{raw:?}");
    }
}

#[test]
fn a_mail_marker_behind_a_text_adds_its_id() {
    let id = "0123456789abcdef".repeat(4);
    let text = "- [ ] a <!--gmail:aa-->\n- [ ] b <!--gmail:\n";
    let marked = format!("{text}<!--gmail:{id}-->");
    assert_eq!(scan_backlog_markers(&marked), vec!["aa".to_string(), id.clone()]);
    // One digit more is no id.
    assert_eq!(scan_backlog_markers(&format!("<!--gmail:{id}0-->")), Vec::<String>::new());
}
