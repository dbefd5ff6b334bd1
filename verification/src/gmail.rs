//! Gmail sync: the label-to-folder map, marker scanning, and subjects.
//! Everything here is pure: text in, text out.

use vstd::prelude::*;
use vstd::slice::slice_subrange;
use vstd::utf8::encode_utf8;
use crate::calendar::{clamp_poll_seconds, poll_seconds, GoogleClientOverride};
use crate::clean::{lacks, scrub, scrubbed};
use crate::digest::{append_bytes, short_digest, short_hex};
use crate::format::{ascii_lowered, same_ignoring_case};
use crate::inbox::CapturedItem;
use crate::lines::slice_to_chars;
use crate::sort::views;
use crate::text::{append_str, from_chars, own, to_chars, trim, trim_start, trimmed, trimmed_start};
pub use crate::words::{break_wikilinks, collapse_whitespace, slug};
use crate::words::{
    collapse, collapsed, distinct, frontmatter_value, holds, marker_ids, read_frontmatter,
    scan_markers, trim_char, trimmed_of,
};

verus! {

/// The Gmail configuration's file name, next to `config.toml` in `.thock/`.
pub const GMAIL_CONFIG_FILE: &'static str = "gmail.toml";

/// One entry of the map: threads carrying `label` land as notes in the
/// vault-relative folder `path`. Labels route, folders mean.
#[derive(Debug, Clone, PartialEq)]
pub struct SyncMapping {
    /// Matched case-insensitively against the label's full path name.
    pub label: String,
    /// Vault-relative landing folder, created on demand.
    pub path: String,
}

/// What a mapping says.
pub struct Mapping {
    pub label: Seq<char>,
    pub path: Seq<char>,
}

impl View for SyncMapping {
    type V = Mapping;

    open spec fn view(&self) -> Mapping {
        Mapping { label: self.label@, path: self.path@ }
    }
}

/// The resolved Gmail configuration.
#[derive(Debug, Clone, PartialEq)]
pub struct GmailConfig {
    pub account: Option<String>,
    /// Ordered: the first mapping whose label a thread carries claims it.
    pub mappings: Vec<SyncMapping>,
    /// In seconds.
    pub poll_interval: u64,
    pub google: GoogleClientOverride,
}

/// The shipped map.
pub open spec fn shipped_mappings() -> Seq<Mapping> {
    seq![
        Mapping { label: "thock/backlog"@, path: "archives/emails"@ },
        Mapping { label: "thock/inbox"@, path: "inbox"@ },
    ]
}

/// The shipped map: backlog first, so that a thread with both labels keeps
/// taking the fast lane.
pub fn default_mappings() -> (mappings: Vec<SyncMapping>)
    ensures
        views(mappings@) == shipped_mappings(),
{
    let mut mappings: Vec<SyncMapping> = Vec::new();
    mappings.push(SyncMapping { label: own("thock/backlog"), path: own("archives/emails") });
    mappings.push(SyncMapping { label: own("thock/inbox"), path: own("inbox") });
    assert(views(mappings@) =~= shipped_mappings());
    mappings
}

impl Default for GmailConfig {
    fn default() -> (config: Self)
        ensures
            config.account is None,
            views(config.mappings@) == shipped_mappings(),
            config.poll_interval == 300,
            config.google.client_id is None,
            config.google.client_secret is None,
    {
        GmailConfig {
            account: None,
            mappings: default_mappings(),
            poll_interval: 300,
            google: GoogleClientOverride::default(),
        }
    }
}

/// One `[[sync]]` entry of the configuration file, as read.
#[derive(Debug)]
pub struct SyncContent {
    pub label: Option<String>,
    pub path: Option<String>,
}

/// The configuration file, as read: every field is optional.
#[derive(Debug)]
pub struct GmailConfigContent {
    pub poll_seconds: Option<u64>,
    pub sync: Vec<SyncContent>,
}

/// A name, trimmed.
pub open spec fn name_of(s: Option<String>) -> Seq<char> {
    match s {
        Some(t) => trim(t@),
        None => Seq::empty(),
    }
}

/// A folder, without white space and slashes at its ends.
pub open spec fn folder_of(s: Option<String>) -> Seq<char> {
    match s {
        Some(t) => trim_char(trim(t@), '/'),
        None => Seq::empty(),
    }
}

/// Whether one of the mappings has the label, letter case aside.
pub open spec fn has_label(mappings: Seq<Mapping>, label: Seq<char>) -> bool {
    exists|i: int|
        0 <= i < mappings.len() && ascii_lowered(#[trigger] mappings[i].label) == ascii_lowered(
            label,
        )
}

/// The usable entries: with both fields, and of those that share a label the
/// first one.
pub open spec fn usable(entries: Seq<SyncContent>) -> Seq<Mapping>
    decreases entries.len(),
{
    if entries.len() == 0 {
        Seq::empty()
    } else {
        let rest = usable(entries.drop_last());
        let label = name_of(entries.last().label);
        let path = folder_of(entries.last().path);
        if label.len() == 0 || path.len() == 0 || has_label(rest, label) {
            rest
        } else {
            rest.push(Mapping { label, path })
        }
    }
}

/// A name, trimmed.
fn name(s: &Option<String>) -> (out: Vec<char>)
    ensures
        out@ == name_of(*s),
{
    match s {
        Some(t) => slice_to_chars(trimmed(to_chars(t.as_str()).as_slice())),
        None => Vec::new(),
    }
}

/// A folder, without white space and slashes at its ends.
pub(crate) fn folder(s: &Option<String>) -> (out: Vec<char>)
    ensures
        out@ == folder_of(*s),
{
    match s {
        Some(t) => slice_to_chars(trimmed_of(trimmed(to_chars(t.as_str()).as_slice()), '/')),
        None => Vec::new(),
    }
}

/// Whether one of the mappings has the label, letter case aside.
fn label_taken(mappings: &Vec<SyncMapping>, label: &[char]) -> (yes: bool)
    ensures
        yes == has_label(views(mappings@), label@),
{
    let mut i: usize = 0;
    while i < mappings.len()
        invariant
            i <= mappings@.len(),
            forall|j: int|
                0 <= j < i ==> ascii_lowered(#[trigger] views(mappings@)[j].label)
                    != ascii_lowered(label@),
        decreases mappings@.len() - i,
    {
        assert(views(mappings@)[i as int].label == mappings@[i as int].label@);
        if same_ignoring_case(to_chars(mappings[i].label.as_str()).as_slice(), label) {
            return true;
        }
        i = i + 1;
    }
    false
}

/// Resolves a configuration file: entries without a label or a path, and those
/// with a label seen before, are ignored; with none left, the shipped map
/// applies. The poll interval is clamped.
pub fn resolve_gmail_config(content: GmailConfigContent) -> (config: GmailConfig)
    ensures
        config.account is None,
        views(config.mappings@) == (if usable(content.sync@).len() == 0 {
            shipped_mappings()
        } else {
            usable(content.sync@)
        }),
        config.poll_interval == poll_seconds(content.poll_seconds),
        config.google.client_id is None,
        config.google.client_secret is None,
{
    let mut mappings: Vec<SyncMapping> = Vec::new();
    let ghost all = content.sync@;
    let mut i: usize = 0;
    assert(all.take(0) =~= Seq::<SyncContent>::empty());
    assert(views(mappings@) =~= Seq::<Mapping>::empty());
    while i < content.sync.len()
        invariant
            i <= content.sync@.len(),
            all == content.sync@,
            views(mappings@) == usable(all.take(i as int)),
        decreases content.sync@.len() - i,
    {
        let entry = &content.sync[i];
        let ghost before = mappings@;
        proof {
            assert(all.take(i + 1).drop_last() =~= all.take(i as int));
            assert(all.take(i + 1).last() == all[i as int]);
        }
        let label = name(&entry.label);
        let path = folder(&entry.path);
        if label.len() > 0 && path.len() > 0 && !label_taken(&mappings, label.as_slice()) {
            mappings.push(
                SyncMapping {
                    label: from_chars(label.as_slice()),
                    path: from_chars(path.as_slice()),
                },
            );
            assert(views(mappings@) =~= views(before).push(Mapping { label: label@, path: path@ }));
        }
        i = i + 1;
    }
    assert(all.take(all.len() as int) =~= all);
    if mappings.len() == 0 {
        mappings = default_mappings();
    }
    GmailConfig {
        account: None,
        mappings,
        poll_interval: clamp_poll_seconds(content.poll_seconds),
        google: GoogleClientOverride::default(),
    }
}

/// No two usable entries share a label.
pub proof fn labels_are_distinct(entries: Seq<SyncContent>)
    ensures
        forall|i: int, j: int|
            0 <= i < j < usable(entries).len() ==> ascii_lowered(
                #[trigger] usable(entries)[i].label,
            ) != ascii_lowered(#[trigger] usable(entries)[j].label),
    decreases entries.len(),
{
    if entries.len() > 0 {
        labels_are_distinct(entries.drop_last());
        let rest = usable(entries.drop_last());
        let all = usable(entries);
        assert forall|i: int, j: int| 0 <= i < j < all.len() implies ascii_lowered(
            #[trigger] all[i].label,
        ) != ascii_lowered(#[trigger] all[j].label) by {
            if j < rest.len() {
                assert(all[i] == rest[i] && all[j] == rest[j]);
            } else {
                assert(all[i] == rest[i]);
                if ascii_lowered(rest[i].label) == ascii_lowered(all[j].label) {
                    assert(has_label(rest, all[j].label));
                }
            }
        }
    }
}

/// One mapping's share of a poll, index-aligned with the configured mappings.
#[derive(Debug, Clone, PartialEq)]
pub enum MappingFetched {
    Items(Vec<CapturedItem>),
    /// The mapped label does not exist in the account: a holding state, not an
    /// error.
    LabelNotFound,
}

/// A transport's answer for one poll.
#[derive(Debug, Clone, PartialEq)]
pub struct GmailFetched {
    /// Index-aligned with the configured mappings.
    pub mappings: Vec<MappingFetched>,
}

/// The older digest of a thread: over the account, a zero byte and the thread
/// id.
pub open spec fn thread_digest(account: Seq<char>, thread_id: Seq<char>) -> Seq<char> {
    short_digest(encode_utf8(account) + seq![0u8] + encode_utf8(thread_id))
}

/// The older digest of a thread, by which threads recorded before are
/// recognized and never captured twice.
pub fn thread_marker_id(account: &str, thread_id: &str) -> (id: String)
    ensures
        id@ == thread_digest(account@, thread_id@),
        id@.len() == 12,
        crate::synced_line::all_hex(id@),
{
    let mut bytes: Vec<u8> = Vec::new();
    append_bytes(&mut bytes, account);
    bytes.push(0);
    append_bytes(&mut bytes, thread_id);
    assert(bytes@ =~= encode_utf8(account@) + seq![0u8] + encode_utf8(thread_id@));
    short_hex(bytes.as_slice())
}

/// The address of a thread in the connected account's mailbox.
pub open spec fn thread_url(account: Seq<char>, thread_id: Seq<char>) -> Seq<char> {
    "https://mail.google.com/mail/u/"@ + account + "/#all/"@ + thread_id
}

/// The address of a thread. It names the connected account, so that browsers
/// with several accounts open the right mailbox.
pub fn gmail_thread_url(account: &str, thread_id: &str) -> (url: String)
    ensures
        url@ == thread_url(account@, thread_id@),
{
    let mut out: Vec<char> = to_chars("https://mail.google.com/mail/u/");
    append_str(&mut out, account);
    append_str(&mut out, "/#all/");
    append_str(&mut out, thread_id);
    from_chars(out.as_slice())
}

/// Every id of a `<!--gmail:…-->` marker in the text, each once.
pub fn scan_backlog_markers(text: &str) -> (ids: Vec<String>)
    ensures
        distinct(ids@),
        forall|id: Seq<char>| #[trigger]
            holds(ids@, id) == marker_ids(text@, "<!--gmail:"@).contains(id),
{
    proof {
        reveal_strlit("<!--gmail:");
    }
    scan_markers(text, "<!--gmail:")
}

/// The `thread:` digest from an archive file's frontmatter.
pub fn archive_frontmatter_digest(content: &str) -> (found: Option<String>)
    ensures
        match found {
            Some(v) => frontmatter_value(content@, "thread:"@) == Some(v@),
            None => frontmatter_value(content@, "thread:"@) is None,
        },
{
    read_frontmatter(content, "thread:")
}

/// Whether `s` begins with `p`, the case of ASCII letters aside.
pub open spec fn begins_like(s: Seq<char>, p: Seq<char>) -> bool {
    s.len() >= p.len() && ascii_lowered(s.take(p.len() as int)) == ascii_lowered(p)
}

/// The length of the reply prefix that a subject begins with; zero without
/// one.
pub open spec fn reply_prefix(s: Seq<char>) -> int {
    if begins_like(s, "re:"@) {
        3
    } else if begins_like(s, "fwd:"@) {
        4
    } else if begins_like(s, "fw:"@) {
        3
    } else {
        0
    }
}

/// A subject without its reply prefixes.
pub open spec fn without_replies(s: Seq<char>) -> Seq<char>
    decreases s.len(),
{
    let t = trim_start(s);
    let n = reply_prefix(t);
    if 0 < n <= t.len() <= s.len() {
        without_replies(t.skip(n))
    } else {
        s
    }
}

/// A subject as a title.
pub open spec fn subject_title(raw: Seq<char>) -> Seq<char> {
    let s = collapsed(without_replies(scrubbed(raw, "<!--"@)));
    if s.len() == 0 {
        "(no subject)"@
    } else {
        s
    }
}

fn starts_like(s: &[char], p: &str) -> (yes: bool)
    ensures
        yes == begins_like(s@, p@),
{
    let prefix = to_chars(p);
    if s.len() < prefix.len() {
        return false;
    }
    assert(s@.subrange(0, prefix@.len() as int) =~= s@.take(prefix@.len() as int));
    same_ignoring_case(slice_subrange(s, 0, prefix.len()), prefix.as_slice())
}

/// The subject as title text: reply prefixes are stripped, marker forgery is
/// removed, and white space collapses to single spaces.
pub fn sanitize_subject(raw: &str) -> (out: String)
    ensures
        out@ == subject_title(raw@),
        lacks(out@, "<!--"@),
{
    proof {
        crate::title_laws::subjects_open_no_comment(raw@);
        reveal_strlit("<!--");
        reveal_strlit("re:");
        reveal_strlit("fwd:");
        reveal_strlit("fw:");
    }
    let plain = scrub(to_chars(raw).as_slice(), to_chars("<!--").as_slice());
    let mut rest = plain.as_slice();
    loop
        invariant
            without_replies(rest@) == without_replies(plain@),
        ensures
            rest@ == without_replies(plain@),
        decreases rest@.len(),
    {
        proof {
            reveal_strlit("re:");
            reveal_strlit("fwd:");
            reveal_strlit("fw:");
            crate::text::lemma_lead(rest@);
        }
        let t = trimmed_start(rest);
        let n: usize = if starts_like(t, "re:") {
            3
        } else if starts_like(t, "fwd:") {
            4
        } else if starts_like(t, "fw:") {
            3
        } else {
            0
        };
        if n == 0 {
            break;
        }
        let next = slice_subrange(t, n, t.len());
        assert(next@ =~= t@.skip(n as int));
        rest = next;
    }
    let out = collapse(rest);
    if out.len() == 0 {
        return own("(no subject)");
    }
    from_chars(out.as_slice())
}

} // verus!
