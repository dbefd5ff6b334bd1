use base64::Engine;
use thock::gmail::{thread_marker_id, MappingFetched, SyncMapping};
use thock::gmail_google::{
    after_attempt, captured_item, claim_threads, classify_answer, complete_resolution, labels_url,
    message_date, messages_url, resolve_labels, thread_request_url, AfterAttempt, Answer,
    GmailLabel, GmailMessage, GmailThread, MessageRef,
};
use thock::html::html_to_text;
use thock::mime::{
    decode_rfc2047, extract_text_body, MessageHeader, MessagePart, PartBody,
};
use thock::moments::Moment;

const NOW: Moment = Moment { seconds: 1755600000, nanos: 0, offset: 0 };

fn base64url(text: &str) -> String {
    base64::engine::general_purpose::URL_SAFE_NO_PAD.encode(text.as_bytes())
}

fn part(mime_type: &str, data: Option<String>, parts: Vec<MessagePart>) -> MessagePart {
    MessagePart {
        mime_type: mime_type.to_string(),
        headers: Vec::new(),
        body: PartBody { data },
        parts,
    }
}

fn header(name: &str, value: &str) -> MessageHeader {
    MessageHeader { name: name.to_string(), value: value.to_string() }
}

#[test]
fn rfc2047_decoding() {
    assert_eq!(decode_rfc2047("plain subject"), "plain subject");
    assert_eq!(decode_rfc2047("=?UTF-8?B?SW52b2ljZSDinIU=?="), "Invoice ✅");
    assert_eq!(decode_rfc2047("=?utf-8?Q?caf=C3=A9_menu?="), "café menu");
    assert_eq!(decode_rfc2047("=?ISO-8859-1?Q?f=FCr_dich?="), "für dich");
    // Whitespace between adjacent encoded words is dropped…
    assert_eq!(decode_rfc2047("=?UTF-8?B?YWI=?= =?UTF-8?B?Y2Q=?="), "abcd");
    // …but real text between them survives.
    assert_eq!(decode_rfc2047("=?UTF-8?B?YWI=?= and =?UTF-8?B?Y2Q=?="), "ab and cd");
    // A stray marker that isn't an encoded word passes through.
    assert_eq!(decode_rfc2047("worth =? nothing"), "worth =? nothing");
}

#[test]
fn html_reduction() {
    let html = "<html><head><style>p { color: red }</style></head><body>\
                <p>Hi &amp; welcome,</p><script>alert(1)</script>\
                <div>Your invoice<br>is attached.</div>\
                <ul><li>one</li><li>two &#8212; both</li></ul>\
                <p>&nbsp;</p><p></p>&copy; Acme</body></html>";
    assert_eq!(
        html_to_text(html),
        "Hi & welcome,\nYour invoice\nis attached.\none\ntwo — both\n\n&copy; Acme"
    );
}

#[test]
fn html_entities_and_case() {
    assert_eq!(html_to_text("<SCRIPT>x</Script>a&#x41;&bogus;&#xD800;"), "aA&bogus;&#xD800;");
    assert_eq!(html_to_text("&lt;b&gt; &quot;q&quot; &#39;"), "<b> \"q\" '");
}

#[test]
fn body_extraction_prefers_plain_text() {
    let multipart = part(
        "multipart/alternative",
        None,
        vec![
            part("text/html", Some(base64url("<p>rich</p>")), vec![]),
            part("text/plain", Some(base64url("plain wins")), vec![]),
        ],
    );
    assert_eq!(extract_text_body(&multipart).as_deref(), Some("plain wins"));

    let html_only = part("text/html", Some(base64url("<p>only &lt;html&gt;</p>")), vec![]);
    assert_eq!(extract_text_body(&html_only).as_deref(), Some("only <html>"));

    let attachment_only = part("application/pdf", None, vec![]);
    assert_eq!(extract_text_body(&attachment_only), None);
}

fn plain_message(from: &str, text: Option<&str>, millis: &str, labels: &[&str]) -> GmailMessage {
    GmailMessage {
        label_ids: labels.iter().map(|label| label.to_string()).collect(),
        internal_date: Some(millis.to_string()),
        payload: MessagePart {
            mime_type: "text/plain".to_string(),
            headers: vec![header("Subject", "Plans"), header("From", from)],
            body: PartBody { data: text.map(base64url) },
            parts: Vec::new(),
        },
    }
}

#[test]
fn threads_render_every_message_in_order() {
    // Unsorted input, a draft, and a reply with no text.
    let thread = GmailThread {
        messages: vec![
            plain_message("Bea <bea@example.com>", Some("Second"), "2000", &[]),
            plain_message("Draft <me@example.com>", Some("wip"), "3000", &["DRAFT"]),
            plain_message("Ana <ana@example.com>", Some("First"), "1000", &[]),
            plain_message("Cal <cal@example.com>", None, "4000", &[]),
        ],
    };
    let item = captured_item(&thread, "diego@example.com", "t-1", &[0, 0, 0, 0], NOW);
    assert_eq!(item.from.as_deref(), Some("Ana <ana@example.com>"));
    let body = item.body.as_deref().unwrap();
    let ana = body.find("## Ana").expect("ana section");
    let bea = body.find("## Bea").expect("bea section");
    let cal = body.find("## Cal").expect("cal section");
    assert!(ana < bea && bea < cal, "{body}");
    assert!(body.contains("First") && body.contains("Second"), "{body}");
    assert!(body.contains("_(no content)_"), "{body}");
    assert!(!body.contains("Draft") && !body.contains("wip"), "{body}");
    assert_eq!(item.occurred_at, Some(Moment { seconds: 4, nanos: 0, offset: 0 }));

    // A single-message thread keeps the bare body: no section heading.
    let single = GmailThread {
        messages: vec![plain_message("Ana <ana@example.com>", Some("Solo"), "1000", &[])],
    };
    let item = captured_item(&single, "diego@example.com", "t-2", &[0], NOW);
    assert_eq!(item.body.as_deref(), Some("Solo"));
}

fn mapping(label: &str, path: &str) -> SyncMapping {
    SyncMapping { label: label.to_string(), path: path.to_string() }
}

fn label(id: &str, name: &str) -> GmailLabel {
    GmailLabel { id: id.to_string(), name: name.to_string() }
}

fn reference(id: &str, thread_id: &str) -> MessageRef {
    MessageRef { id: id.to_string(), thread_id: thread_id.to_string() }
}

#[test]
fn transport_claims_threads_by_mapping_priority_and_skips_imported() {
    let mappings = [mapping("thock/backlog", "archives/emails"), mapping("thock/inbox", "inbox")];
    let labels = [
        label("Label_1", "thock/Backlog"),
        label("Label_2", "thock/inbox"),
        label("INBOX", "INBOX"),
    ];
    let ids = complete_resolution(&resolve_labels(&mappings, &labels)).unwrap();
    assert_eq!(ids, ["Label_1", "Label_2"]);
    assert!(messages_url(&ids[0], None).contains("labelIds=Label_1"));
    assert!(messages_url(&ids[1], None).contains("labelIds=Label_2"));

    let account = "diego@example.com";
    // A record of an earlier build still skips its thread.
    let skip = vec![thread_marker_id(account, "t-old")];
    let mut seen = Vec::new();
    // Two messages of one thread (newest first), plus an already-imported one.
    let backlog = claim_threads(
        &[reference("m3", "t-both"), reference("m2", "t-both"), reference("m1", "t-old")],
        account,
        &skip,
        &mut seen,
    );
    let inbox = claim_threads(
        &[reference("m3", "t-both"), reference("m4", "t-inbox")],
        account,
        &skip,
        &mut seen,
    );
    assert_eq!(backlog, ["t-both"]);
    // The inbox mapping sees only its own thread.
    assert_eq!(inbox, ["t-inbox"]);
    let url = thread_request_url("t-both");
    assert!(url.contains("/threads/t-both") && url.contains("format=full"), "{url}");

    let message = |millis: &str, subject: &str, from: &str, text: &str| GmailMessage {
        label_ids: Vec::new(),
        internal_date: Some(millis.to_string()),
        payload: MessagePart {
            mime_type: "text/plain".to_string(),
            headers: vec![header("Subject", subject), header("From", from)],
            body: PartBody { data: Some(base64url(text)) },
            parts: Vec::new(),
        },
    };
    let thread = GmailThread {
        messages: vec![
            message(
                "1755500000000",
                "Re: =?UTF-8?Q?Caf=C3=A9?= plans",
                "Diego <diego@example.com>",
                "Sure, 9am works.",
            ),
            message(
                "1755400000000",
                "=?UTF-8?Q?Caf=C3=A9?= plans",
                "Ana <ana@example.com>",
                "Coffee tomorrow?",
            ),
        ],
    };
    // Subject and sender come from the first message, replies oldest first.
    let item = captured_item(&thread, account, "t-both", &[0, 0], NOW);
    assert_eq!(item.external_id, "t-both");
    assert_eq!(item.title, "Café plans");
    assert_eq!(item.from.as_deref(), Some("Ana <ana@example.com>"));
    assert_eq!(
        item.link.as_deref(),
        Some("https://mail.google.com/mail/u/diego@example.com/#all/t-both")
    );
    let body = item.body.as_deref().unwrap();
    let ana = body.find("## Ana <ana@example.com>").expect("first message section");
    let diego = body.find("## Diego <diego@example.com>").expect("reply section");
    assert!(ana < diego, "{body}");
    assert!(body.contains("Coffee tomorrow?"), "{body}");
    assert!(body.contains("Sure, 9am works."), "{body}");
}

/// A missing label holds its own mapping without blocking the others, and
/// matching is against the full path, never the last segment.
#[test]
fn missing_label_holds_only_its_mapping() {
    let mappings = [mapping("thock/backlog", "archives/emails"), mapping("thock/inbox", "inbox")];
    let labels = [label("Label_9", "work/backlog"), label("Label_2", "thock/inbox")];
    let ids = resolve_labels(&mappings, &labels);
    let mut seen = Vec::new();
    let fetched: Vec<MappingFetched> = ids
        .iter()
        .map(|id| match id {
            None => MappingFetched::LabelNotFound,
            Some(id) => {
                assert_eq!(id, "Label_2");
                assert!(claim_threads(&[], "diego@example.com", &[], &mut seen).is_empty());
                MappingFetched::Items(Vec::new())
            }
        })
        .collect();
    assert_eq!(fetched, vec![MappingFetched::LabelNotFound, MappingFetched::Items(Vec::new())]);
    // Incomplete resolutions are never kept, so the label is looked up again
    // next poll.
    assert!(complete_resolution(&ids).is_none());
}

/// A transient error of the label list is no missing label.
#[test]
fn transient_labels_error_propagates() {
    assert_eq!(classify_answer(503, "unavailable"), Answer::Failed);
}

#[test]
fn insufficient_scope_is_auth_revoked() {
    let body = r#"{"error": {"status": "PERMISSION_DENIED",
                        "message": "Request had insufficient authentication scopes."}}"#;
    assert_eq!(classify_answer(403, body), Answer::AuthRevoked);
}

#[test]
fn answers_are_told_apart() {
    assert_eq!(classify_answer(200, ""), Answer::Good);
    assert_eq!(classify_answer(401, ""), Answer::Unauthorized);
    assert_eq!(classify_answer(403, "rateLimitExceeded"), Answer::Failed);
    assert_eq!(after_attempt(false, true), AfterAttempt::Refresh);
    assert_eq!(after_attempt(true, true), AfterAttempt::Revoked);
    assert_eq!(after_attempt(true, false), AfterAttempt::Done);
}

#[test]
fn request_addresses_are_escaped() {
    assert_eq!(labels_url(), "https://gmail.googleapis.com/gmail/v1/users/me/labels");
    let url = messages_url("Label 1&x", Some("p=2"));
    assert!(url.contains("labelIds=Label+1%26x"), "{url}");
    assert!(url.contains("pageToken=p%3D2"), "{url}");
    assert!(thread_request_url("a/b").contains("/threads/a%2Fb"), "{}", thread_request_url("a/b"));
}

#[test]
fn dates_come_from_the_internal_date() {
    let message = plain_message("Ana <ana@example.com>", None, "1755500000123", &[]);
    assert_eq!(message_date(&message), Some((1755500000, 123_000_000)));
    let broken = plain_message("Ana <ana@example.com>", None, "soon", &[]);
    assert_eq!(message_date(&broken), None);
}
