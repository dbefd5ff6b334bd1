//! The Inbox landing zone: the configuration, what every transport produces,
//! and the capture planner that turns captured items into one note file each.
//! Everything here is pure: text in, text out.

use vstd::prelude::*;
use vstd::slice::slice_subrange;
use vstd::utf8::encode_utf8;
use crate::calendar::{clamp_poll_seconds, poll_seconds, setting};
use crate::clean::{lacks, scrub, scrubbed};
use crate::digest::{append_bytes, short_digest, short_hex};
use crate::gmail::{folder, folder_of};
use crate::lines::{slice_to_chars, strings};
use crate::moments::{
    date_text, earlier, format_date, format_moment, is_earlier, moment_text, parse_rfc3339, rfc3339,
    Date, Moment,
};
use crate::sort::{sort, sorted, views, Ranked};
use crate::text::{append, append_str, from_chars, own, to_chars, trim, trimmed};
use crate::words::{
    break_wikilinks, collapse, collapsed, distinct, frontmatter_value, holds, list_holds,
    marker_ids, read_frontmatter, scan_markers, slug, slugged, unlinked,
};

verus! {

/// The inbox configuration's file name, next to `config.toml` in `.thock/`.
pub const INBOX_CONFIG_FILE: &'static str = "inbox.toml";

/// The append-only triage log, written by the triage skill; its markers are
/// half the state-rebuild scan.
pub const TRIAGE_LOG_PATH: &'static str = "archives/inbox/triage-log.md";

/// The resolved inbox configuration.
#[derive(Debug, Clone, PartialEq)]
pub struct InboxConfig {
    /// Vault-relative landing zone.
    pub dir: String,
    /// In seconds.
    pub poll_interval: u64,
    pub gmail_enabled: bool,
    /// The Gmail label that means "capture into the inbox", matched
    /// case-insensitively against the label's full path name.
    pub gmail_label: String,
    pub tasks_enabled: bool,
    /// The Google Tasks list to capture from, by title; `None` means the
    /// account's default list.
    pub tasks_list: Option<String>,
}

impl Default for InboxConfig {
    fn default() -> (config: Self)
        ensures
            config.dir@ == "inbox"@,
            config.poll_interval == 300,
            config.gmail_enabled,
            config.gmail_label@ == "thock/inbox"@,
            config.tasks_enabled,
            config.tasks_list is None,
    {
        InboxConfig {
            dir: own("inbox"),
            poll_interval: 300,
            gmail_enabled: true,
            gmail_label: own("thock/inbox"),
            tasks_enabled: true,
            tasks_list: None,
        }
    }
}

/// The configuration file, as read: every field is optional.
#[derive(Debug)]
pub struct InboxConfigContent {
    pub dir: Option<String>,
    pub poll_seconds: Option<u64>,
    pub gmail_enabled: Option<bool>,
    pub gmail_label: Option<String>,
    pub tasks_enabled: Option<bool>,
    pub tasks_list: Option<String>,
}

/// The trimmed text of an optional string; `default` where nothing is left.
pub open spec fn trimmed_or(s: Option<String>, default: Seq<char>) -> Seq<char> {
    match s {
        Some(t) => if trim(t@).len() == 0 {
            default
        } else {
            trim(t@)
        },
        None => default,
    }
}

/// Resolves a configuration file: names are trimmed, blank ones count as not
/// given, the poll interval is clamped, and defaults fill the rest.
pub fn resolve_inbox_config(content: InboxConfigContent) -> (config: InboxConfig)
    ensures
        config.dir@ == (if folder_of(content.dir).len() == 0 {
            "inbox"@
        } else {
            folder_of(content.dir)
        }),
        config.poll_interval == poll_seconds(content.poll_seconds),
        config.gmail_enabled == setting(content.gmail_enabled, true),
        config.gmail_label@ == trimmed_or(content.gmail_label, "thock/inbox"@),
        config.tasks_enabled == setting(content.tasks_enabled, true),
        match config.tasks_list {
            Some(list) => trimmed_or(content.tasks_list, Seq::empty()) == list@ && list@.len() > 0,
            None => trimmed_or(content.tasks_list, Seq::empty()).len() == 0,
        },
{
    let defaults = InboxConfig::default();
    let dir = folder(&content.dir);
    let dir: String = if dir.len() == 0 {
        defaults.dir
    } else {
        from_chars(dir.as_slice())
    };
    let gmail_label: String = match trimmed_text(&content.gmail_label) {
        Some(label) => label,
        None => defaults.gmail_label,
    };
    InboxConfig {
        dir,
        poll_interval: clamp_poll_seconds(content.poll_seconds),
        gmail_enabled: content.gmail_enabled.unwrap_or(defaults.gmail_enabled),
        gmail_label,
        tasks_enabled: content.tasks_enabled.unwrap_or(defaults.tasks_enabled),
        tasks_list: trimmed_text(&content.tasks_list),
    }
}

/// The trimmed text of an optional string, where something is left.
fn trimmed_text(s: &Option<String>) -> (out: Option<String>)
    ensures
        match out {
            Some(t) => trimmed_or(*s, Seq::empty()) == t@ && t@.len() > 0,
            None => trimmed_or(*s, Seq::empty()).len() == 0,
        },
        forall|d: Seq<char>| #[trigger]
            trimmed_or(*s, d) == (match out {
                Some(t) => t@,
                None => d,
            }),
{
    match s {
        Some(t) => {
            let chars = to_chars(t.as_str());
            let kept = trimmed(chars.as_slice());
            if kept.len() == 0 {
                None
            } else {
                Some(from_chars(kept))
            }
        },
        None => None,
    }
}

/// What every transport produces: one landing zone, many sources.
#[derive(Debug, Clone, PartialEq)]
pub struct CapturedItem {
    pub source: &'static str,
    /// Gmail thread id, Google Tasks task id: stable per source.
    pub external_id: String,
    pub title: String,
    /// Who sent it, where the source says so.
    pub from: Option<String>,
    /// The thing the item is *about*, when there is one.
    pub url: Option<String>,
    /// A back-link into the source (a Gmail thread URL); never a `url`.
    pub link: Option<String>,
    pub body: Option<String>,
    /// The item's own moment (the email's date, the task's update time),
    /// already in the local offset; capture time is the fallback.
    pub occurred_at: Option<Moment>,
    /// Only when the source carried one. Metadata for triage, not a schedule.
    pub due: Option<Date>,
}

/// What a captured item holds.
pub struct Item {
    pub source: Seq<char>,
    pub external_id: Seq<char>,
    pub title: Seq<char>,
    pub from: Option<Seq<char>>,
    pub url: Option<Seq<char>>,
    pub link: Option<Seq<char>>,
    pub body: Option<Seq<char>>,
    pub occurred_at: Option<Moment>,
    pub due: Option<Date>,
}

/// The text of an optional string.
pub open spec fn text_of(s: Option<String>) -> Option<Seq<char>> {
    match s {
        Some(t) => Some(t@),
        None => None,
    }
}

impl View for CapturedItem {
    type V = Item;

    open spec fn view(&self) -> Item {
        Item {
            source: self.source@,
            external_id: self.external_id@,
            title: self.title@,
            from: text_of(self.from),
            url: text_of(self.url),
            link: text_of(self.link),
            body: text_of(self.body),
            occurred_at: self.occurred_at,
            due: self.due,
        }
    }
}

/// A copy of an optional string.
pub(crate) fn copy_text(s: &Option<String>) -> (copy: Option<String>)
    ensures
        text_of(copy) == text_of(*s),
{
    match s {
        Some(t) => Some(t.clone()),
        None => None,
    }
}

impl CapturedItem {
    /// A copy of the item.
    pub fn copy(&self) -> (copy: Self)
        ensures
            copy@ == self@,
    {
        CapturedItem {
            source: self.source,
            external_id: self.external_id.clone(),
            title: self.title.clone(),
            from: copy_text(&self.from),
            url: copy_text(&self.url),
            link: copy_text(&self.link),
            body: copy_text(&self.body),
            occurred_at: self.occurred_at,
            due: self.due,
        }
    }
}

/// A source's answer for one poll.
#[derive(Debug, Clone, PartialEq)]
pub enum InboxFetched {
    Items(Vec<CapturedItem>),
    /// The configured label or list does not exist: a holding state, not an
    /// error.
    Holding(String),
}

/// The dedup digest of an item: over the account, the source and the item's
/// id, with zero bytes between.
pub open spec fn item_digest(
    account: Seq<char>,
    source: Seq<char>,
    external_id: Seq<char>,
) -> Seq<char> {
    short_digest(
        encode_utf8(account) + seq![0u8] + encode_utf8(source) + seq![0u8] + encode_utf8(
            external_id,
        ),
    )
}

/// The dedup digest that travels in a note's `capture:` frontmatter and the
/// triage log's markers.
pub fn capture_digest(account: &str, source: &str, external_id: &str) -> (digest: String)
    ensures
        digest@ == item_digest(account@, source@, external_id@),
        digest@.len() == 12,
        crate::synced_line::all_hex(digest@),
{
    let mut bytes: Vec<u8> = Vec::new();
    append_bytes(&mut bytes, account);
    bytes.push(0);
    append_bytes(&mut bytes, source);
    bytes.push(0);
    append_bytes(&mut bytes, external_id);
    assert(bytes@ =~= encode_utf8(account@) + seq![0u8] + encode_utf8(source@) + seq![0u8]
        + encode_utf8(external_id@));
    short_hex(bytes.as_slice())
}

/// A title as frontmatter and heading text.
pub open spec fn plain_title(raw: Seq<char>) -> Seq<char> {
    let title = collapsed(unlinked(scrubbed(raw, "<!--"@)));
    if title.len() == 0 {
        "(untitled)"@
    } else {
        title
    }
}

/// The title as frontmatter and heading text: comment openings stripped, so
/// that a hostile title cannot forge a marker, wikilinks broken apart, white
/// space collapsed, `(untitled)` when empty.
pub fn sanitize_title(raw: &str) -> (title: String)
    ensures
        title@ == plain_title(raw@),
        lacks(title@, "<!--"@),
{
    proof {
        crate::title_laws::titles_open_no_comment(raw@);
        reveal_strlit("<!--");
    }
    let plain = scrub(to_chars(raw).as_slice(), to_chars("<!--").as_slice());
    let title = collapse(break_wikilinks(plain.as_slice()).as_slice());
    if title.len() == 0 {
        return own("(untitled)");
    }
    from_chars(title.as_slice())
}

/// A ready-to-write inbox note, vault-relative.
#[derive(Debug, Clone, PartialEq)]
pub struct InboxFile {
    pub rel_path: String,
    /// The filename without directory or `.md`.
    pub stem: String,
    pub digest: String,
    pub content: String,
}

/// What a file holds.
pub struct File {
    pub rel_path: Seq<char>,
    pub stem: Seq<char>,
    pub digest: Seq<char>,
    pub content: Seq<char>,
}

impl View for InboxFile {
    type V = File;

    open spec fn view(&self) -> File {
        File {
            rel_path: self.rel_path@,
            stem: self.stem@,
            digest: self.digest@,
            content: self.content@,
        }
    }
}

/// What to remember about a capture once it is applied.
#[derive(Debug, Clone, PartialEq)]
pub struct ImportRecord {
    pub digest: String,
    pub source: &'static str,
    pub external_id: String,
    pub title: String,
}

/// What a record holds.
pub struct Record {
    pub digest: Seq<char>,
    pub source: Seq<char>,
    pub external_id: Seq<char>,
    pub title: Seq<char>,
}

impl View for ImportRecord {
    type V = Record;

    open spec fn view(&self) -> Record {
        Record {
            digest: self.digest@,
            source: self.source@,
            external_id: self.external_id@,
            title: self.title@,
        }
    }
}

/// What a capture writes and remembers.
#[derive(Debug, PartialEq)]
pub struct InboxPlan {
    /// Written first, create-if-missing; a crash after this leaves notes whose
    /// frontmatter repairs the state on the next poll.
    pub files: Vec<InboxFile>,
    pub newly_imported: Vec<ImportRecord>,
}

impl Default for InboxPlan {
    fn default() -> (plan: Self)
        ensures
            plan.files@.len() == 0,
            plan.newly_imported@.len() == 0,
    {
        InboxPlan { files: Vec::new(), newly_imported: Vec::new() }
    }
}

/// What a plan holds.
pub struct Plan {
    pub files: Seq<File>,
    pub records: Seq<Record>,
}

impl View for InboxPlan {
    type V = Plan;

    open spec fn view(&self) -> Plan {
        Plan { files: views(self.files@), records: views(self.newly_imported@) }
    }
}

impl InboxPlan {
    /// Whether there is nothing to write and nothing to remember.
    pub fn is_empty(&self) -> (empty: bool)
        ensures
            empty == (self@.files.len() == 0 && self@.records.len() == 0),
    {
        self.files.len() == 0 && self.newly_imported.len() == 0
    }
}

/// An item with its moment and due date as text.
pub struct StampedItem {
    pub item: CapturedItem,
    /// The item's moment, for the file name.
    pub stamp: Option<String>,
    pub due: Option<String>,
}

/// What a stamped item holds.
pub struct Stamped {
    pub item: Item,
    pub stamp: Option<Seq<char>>,
    pub due: Option<Seq<char>>,
}

impl View for StampedItem {
    type V = Stamped;

    open spec fn view(&self) -> Stamped {
        Stamped { item: self.item@, stamp: text_of(self.stamp), due: text_of(self.due) }
    }
}

impl Ranked for StampedItem {
    open spec fn before(a: Stamped, b: Stamped) -> bool {
        earlier(a.item.occurred_at, b.item.occurred_at)
    }

    fn is_before(&self, other: &Self) -> (yes: bool) {
        is_earlier(self.item.occurred_at, other.item.occurred_at)
    }
}

/// The digest of a stamped item.
pub open spec fn digest_of(account: Seq<char>, x: Stamped) -> Seq<char> {
    item_digest(account, x.item.source, x.item.external_id)
}

/// Whether one of the items has the digest.
pub open spec fn has_digest(items: Seq<Stamped>, account: Seq<char>, digest: Seq<char>) -> bool {
    exists|i: int| 0 <= i < items.len() && #[trigger] digest_of(account, items[i]) == digest
}

/// The start of an item's file name: its moment and the slug of its title.
pub open spec fn base_name(x: Stamped) -> Seq<char> {
    (match x.stamp {
        Some(s) => s,
        None => "undated"@,
    }) + seq!['-'] + slugged(plain_title(x.item.title), "item"@)
}

/// Whether a file name is taken: by a file in the folder, or by one planned
/// before.
pub open spec fn claimed(taken: Seq<Seq<char>>, files: Seq<File>, stem: Seq<char>) -> bool {
    taken.contains(stem) || exists|i: int|
        0 <= i < files.len() && #[trigger] files[i].stem == stem
}

/// An item's file name: its base; where that is taken, with the first four
/// characters of the digest; else with the whole digest.
pub open spec fn stem_for(
    base: Seq<char>,
    digest: Seq<char>,
    taken: Seq<Seq<char>>,
    files: Seq<File>,
) -> Seq<char> {
    let short = base + seq!['-'] + digest.take(4);
    if !claimed(taken, files, base) {
        base
    } else if !claimed(taken, files, short) {
        short
    } else {
        base + seq!['-'] + digest
    }
}

/// A frontmatter field: its key, padded, and its value.
#[verifier::opaque]
pub open spec fn field(key: Seq<char>, value: Seq<char>) -> Seq<char> {
    key + seq![':'] + spaces(8 - key.len()) + seq![' '] + value + seq!['\n']
}

/// A run of spaces.
pub open spec fn spaces(n: int) -> Seq<char> {
    Seq::new(
        if n > 0 {
            n as nat
        } else {
            0
        },
        |i: int| ' ',
    )
}

/// A field for an optional value.
pub open spec fn opt_field(key: Seq<char>, value: Option<Seq<char>>) -> Seq<char> {
    match value {
        Some(v) => field(key, collapsed(v)),
        None => Seq::empty(),
    }
}

/// The item's text, where there is more than white space.
pub open spec fn body_text(item: Item) -> Option<Seq<char>> {
    match item.body {
        Some(b) => if trim(b).len() == 0 {
            None
        } else {
            Some(trim(b))
        },
        None => None,
    }
}

/// The frontmatter of an item's note.
pub open spec fn note_front(
    x: Stamped,
    title: Seq<char>,
    digest: Seq<char>,
    captured_at: Seq<char>,
) -> Seq<char> {
    field("source"@, x.item.source) + field("capture"@, digest) + field("captured"@, captured_at)
        + field("title"@, title) + opt_field("from"@, x.item.from) + opt_field("url"@, x.item.url)
        + opt_field("link"@, x.item.link) + (match x.due {
        Some(d) => field("due"@, d),
        None => Seq::empty(),
    })
}

/// The part of an item's note below the frontmatter.
pub open spec fn note_body(item: Item, title: Seq<char>) -> Seq<char> {
    "# "@ + title + seq!['\n'] + (match item.url {
        Some(url) => seq!['\n'] + collapsed(url) + seq!['\n'],
        None => Seq::empty(),
    }) + (match body_text(item) {
        Some(body) => seq!['\n'] + body + seq!['\n'],
        None => if item.url is None {
            "\n_(no content)_\n"@
        } else {
            Seq::empty()
        },
    })
}

/// An item's note: frontmatter that the machinery reads, then the item's text.
pub open spec fn note_text(
    x: Stamped,
    title: Seq<char>,
    digest: Seq<char>,
    captured_at: Seq<char>,
) -> Seq<char> {
    "---\n"@ + note_front(x, title, digest, captured_at) + "---\n\n"@ + note_body(x.item, title)
}

/// Appends a frontmatter field.
fn append_field(out: &mut Vec<char>, key: &str, value: &[char])
    requires
        key@.len() <= 8,
    ensures
        final(out)@ == old(out)@ + field(key@, value@),
{
    proof {
        reveal(field);
    }
    let name = to_chars(key);
    append(out, name.as_slice());
    out.push(':');
    let ghost base = out@;
    let mut n: usize = name.len();
    assert(base + spaces(0) =~= base);
    while n < 8
        invariant
            key@.len() <= n <= 8,
            out@ == base + spaces(n - key@.len()),
        decreases 8 - n,
    {
        out.push(' ');
        n = n + 1;
        assert(out@ =~= base + spaces(n - key@.len()));
    }
    out.push(' ');
    append(out, value);
    out.push('\n');
    assert(out@ =~= old(out)@ + field(key@, value@));
}

/// Appends a field for an optional value.
fn append_opt_field(out: &mut Vec<char>, key: &str, value: &Option<String>)
    requires
        key@.len() <= 8,
    ensures
        final(out)@ == old(out)@ + opt_field(key@, text_of(*value)),
{
    if let Some(v) = value {
        let clean = collapse(to_chars(v.as_str()).as_slice());
        append_field(out, key, clean.as_slice());
    } else {
        assert(out@ =~= old(out)@ + opt_field(key@, text_of(*value)));
    }
}

/// Appends the frontmatter of an item's note.
fn append_front(
    out: &mut Vec<char>,
    x: &StampedItem,
    title: &str,
    digest: &str,
    captured_at: &str,
)
    ensures
        final(out)@ == old(out)@ + note_front(x@, title@, digest@, captured_at@),
{
    proof {
        reveal_strlit("source");
        reveal_strlit("capture");
        reveal_strlit("captured");
        reveal_strlit("title");
        reveal_strlit("from");
        reveal_strlit("url");
        reveal_strlit("link");
        reveal_strlit("due");
    }
    append_field(out, "source", to_chars(x.item.source).as_slice());
    append_field(out, "capture", to_chars(digest).as_slice());
    append_field(out, "captured", to_chars(captured_at).as_slice());
    append_field(out, "title", to_chars(title).as_slice());
    append_opt_field(out, "from", &x.item.from);
    append_opt_field(out, "url", &x.item.url);
    append_opt_field(out, "link", &x.item.link);
    if let Some(due) = &x.due {
        append_field(out, "due", to_chars(due.as_str()).as_slice());
    }
    assert(out@ =~= old(out)@ + note_front(x@, title@, digest@, captured_at@));
}

/// Appends the part of an item's note below the frontmatter.
fn append_body(out: &mut Vec<char>, item: &CapturedItem, title: &str)
    ensures
        final(out)@ == old(out)@ + note_body(item@, title@),
{
    append_str(out, "# ");
    append_str(out, title);
    out.push('\n');
    if let Some(url) = &item.url {
        out.push('\n');
        append(out, collapse(to_chars(url.as_str()).as_slice()).as_slice());
        out.push('\n');
    }
    let mut has_body: bool = false;
    if let Some(b) = &item.body {
        let chars = to_chars(b.as_str());
        let body = trimmed(chars.as_slice());
        if body.len() > 0 {
            has_body = true;
            out.push('\n');
            append(out, body);
            out.push('\n');
        }
    }
    if !has_body && item.url.is_none() {
        append_str(out, "\n_(no content)_\n");
    }
    assert(out@ =~= old(out)@ + note_body(item@, title@));
}

/// One inbox note. A capture is never dropped silently: an item with no body
/// and no url still gets a placeholder body.
pub fn render_inbox_note(x: &StampedItem, title: &str, digest: &str, captured_at: &str) -> (note:
    String)
    ensures
        note@ == note_text(x@, title@, digest@, captured_at@),
{
    let mut out: Vec<char> = to_chars("---\n");
    append_front(&mut out, x, title, digest, captured_at);
    append_str(&mut out, "---\n\n");
    append_body(&mut out, &x.item, title);
    assert(out@ =~= note_text(x@, title@, digest@, captured_at@));
    from_chars(out.as_slice())
}

/// What to remember about an item.
pub open spec fn record_of(account: Seq<char>, x: Stamped) -> Record {
    Record {
        digest: digest_of(account, x),
        source: x.item.source,
        external_id: x.item.external_id,
        title: plain_title(x.item.title),
    }
}

/// The plan for items in order. One whose digest is in the state, or was
/// planned before, is skipped; one whose digest is in the vault only repairs
/// the state; any other gets a file.
pub open spec fn planned(
    items: Seq<Stamped>,
    account: Seq<char>,
    imported: Seq<Seq<char>>,
    vault: Seq<Seq<char>>,
    taken: Seq<Seq<char>>,
    dir: Seq<char>,
    captured_at: Seq<char>,
) -> Plan
    decreases items.len(),
{
    if items.len() == 0 {
        Plan { files: Seq::empty(), records: Seq::empty() }
    } else {
        let rest = items.drop_last();
        let plan = planned(rest, account, imported, vault, taken, dir, captured_at);
        let x = items.last();
        let digest = digest_of(account, x);
        if imported.contains(digest) || has_digest(rest, account, digest) {
            plan
        } else if vault.contains(digest) {
            Plan { files: plan.files, records: plan.records.push(record_of(account, x)) }
        } else {
            let stem = stem_for(base_name(x), digest, taken, plan.files);
            Plan {
                files: plan.files.push(
                    File {
                        rel_path: dir + seq!['/'] + stem + ".md"@,
                        stem,
                        digest,
                        content: note_text(x, plain_title(x.item.title), digest, captured_at),
                    },
                ),
                records: plan.records.push(record_of(account, x)),
            }
        }
    }
}

/// Whether a file name is taken.
fn is_claimed(taken: &[String], files: &Vec<InboxFile>, stem: &str) -> (yes: bool)
    ensures
        yes == claimed(strings(taken@), views(files@), stem@),
{
    if list_holds(taken, stem) {
        return true;
    }
    let mut i: usize = 0;
    while i < files.len()
        invariant
            i <= files@.len(),
            forall|j: int| 0 <= j < i ==> #[trigger] views(files@)[j].stem != stem@,
        decreases files@.len() - i,
    {
        assert(views(files@)[i as int].stem == files@[i as int].stem@);
        if crate::text::same_str(files[i].stem.as_str(), stem) {
            return true;
        }
        i = i + 1;
    }
    false
}

/// An item's file name.
fn choose_stem(base: &[char], digest: &str, taken: &[String], files: &Vec<InboxFile>) -> (stem:
    String)
    requires
        digest@.len() == 12,
    ensures
        stem@ == stem_for(base@, digest@, strings(taken@), views(files@)),
{
    let first = from_chars(base);
    if !is_claimed(taken, files, first.as_str()) {
        return first;
    }
    let chars = to_chars(digest);
    let mut short = slice_to_chars(base);
    short.push('-');
    append(&mut short, slice_subrange(chars.as_slice(), 0, 4));
    assert(short@ =~= base@ + seq!['-'] + digest@.take(4));
    let second = from_chars(short.as_slice());
    if !is_claimed(taken, files, second.as_str()) {
        return second;
    }
    let mut long = slice_to_chars(base);
    long.push('-');
    append(&mut long, chars.as_slice());
    assert(long@ =~= base@ + seq!['-'] + digest@);
    from_chars(long.as_slice())
}

/// Whether one of the first items has the digest.
fn planned_before(items: &Vec<StampedItem>, n: usize, account: &str, digest: &str) -> (yes: bool)
    requires
        n <= items@.len(),
    ensures
        yes == has_digest(views(items@).take(n as int), account@, digest@),
{
    let ghost first = views(items@).take(n as int);
    let mut i: usize = 0;
    while i < n
        invariant
            i <= n <= items@.len(),
            first == views(items@).take(n as int),
            forall|j: int| 0 <= j < i ==> #[trigger] digest_of(account@, first[j]) != digest@,
        decreases n - i,
    {
        assert(first[i as int] == items@[i as int]@);
        let item = &items[i].item;
        let d = capture_digest(account, item.source, item.external_id.as_str());
        if crate::text::same_str(d.as_str(), digest) {
            assert(digest_of(account@, first[i as int]) == digest@);
            return true;
        }
        i = i + 1;
    }
    false
}

/// The start of an item's file name.
fn base_of(x: &StampedItem, title: &str) -> (base: Vec<char>)
    requires
        title@ == plain_title(x@.item.title),
    ensures
        base@ == base_name(x@),
{
    let mut base: Vec<char> = match &x.stamp {
        Some(s) => to_chars(s.as_str()),
        None => to_chars("undated"),
    };
    base.push('-');
    append(&mut base, slug(to_chars(title).as_slice(), "item").as_slice());
    assert(base@ =~= base_name(x@));
    base
}

/// The capture planner, for items with their moments as text.
pub fn plan_stamped(
    items: Vec<StampedItem>,
    account: &str,
    imported: &[String],
    vault_digests: &[String],
    taken_stems: &[String],
    dir: &str,
    captured_at: &str,
) -> (plan: InboxPlan)
    ensures
        plan@ == planned(
            sorted::<StampedItem>(views(items@)),
            account@,
            strings(imported@),
            strings(vault_digests@),
            strings(taken_stems@),
            dir@,
            captured_at@,
        ),
{
    let ordered = sort(items);
    let ghost all = views(ordered@);
    let mut plan = InboxPlan::default();
    let mut i: usize = 0;
    assert(all.take(0) =~= Seq::<Stamped>::empty());
    assert(views(plan.files@) =~= Seq::<File>::empty());
    assert(views(plan.newly_imported@) =~= Seq::<Record>::empty());
    while i < ordered.len()
        invariant
            i <= ordered@.len(),
            all == views(ordered@),
            plan@ == planned(
                all.take(i as int),
                account@,
                strings(imported@),
                strings(vault_digests@),
                strings(taken_stems@),
                dir@,
                captured_at@,
            ),
        decreases ordered@.len() - i,
    {
        let x = &ordered[i];
        let ghost before = plan@;
        proof {
            assert(all.take(i + 1).drop_last() =~= all.take(i as int));
            assert(all.take(i + 1).last() == x@);
        }
        let digest = capture_digest(account, x.item.source, x.item.external_id.as_str());
        if !list_holds(imported, digest.as_str()) && !planned_before(
            &ordered,
            i,
            account,
            digest.as_str(),
        ) {
            let title = sanitize_title(x.item.title.as_str());
            if !list_holds(vault_digests, digest.as_str()) {
                let base = base_of(x, title.as_str());
                let stem = choose_stem(base.as_slice(), digest.as_str(), taken_stems, &plan.files);
                let mut path: Vec<char> = to_chars(dir);
                path.push('/');
                append_str(&mut path, stem.as_str());
                append_str(&mut path, ".md");
                assert(path@ =~= dir@ + seq!['/'] + stem@ + ".md"@);
                let content = render_inbox_note(x, title.as_str(), digest.as_str(), captured_at);
                let file = InboxFile {
                    rel_path: from_chars(path.as_slice()),
                    stem,
                    digest: digest.clone(),
                    content,
                };
                let ghost f0 = plan.files@;
                plan.files.push(file);
                assert(views(plan.files@) =~= views(f0).push(file@));
            }
            let record = ImportRecord {
                digest,
                source: x.item.source,
                external_id: x.item.external_id.clone(),
                title,
            };
            let ghost r0 = plan.newly_imported@;
            plan.newly_imported.push(record);
            assert(views(plan.newly_imported@) =~= views(r0).push(record@));
        }
        i = i + 1;
    }
    assert(all.take(all.len() as int) =~= all);
    plan
}

/// An item with its moment and due date written out; capture time stands in
/// for a moment that is not known.
pub open spec fn stamped(item: Item, captured_at: Seq<char>) -> Stamped {
    Stamped {
        item,
        stamp: match item.occurred_at {
            Some(m) => moment_text(m.seconds, m.offset, "%Y-%m-%d-%H%M"@),
            None => match rfc3339(captured_at) {
                Some((seconds, _, offset)) => moment_text(seconds, offset, "%Y-%m-%d-%H%M"@),
                None => None,
            },
        },
        due: match item.due {
            Some(d) => date_text(d.year, d.month, d.day, "%Y-%m-%d"@),
            None => None,
        },
    }
}

/// The items, stamped.
pub open spec fn all_stamped(items: Seq<Item>, captured_at: Seq<char>) -> Seq<Stamped> {
    items.map_values(|item: Item| stamped(item, captured_at))
}

/// The plan for captured items: they are taken in the order of their moments,
/// those without one first.
pub open spec fn capture_plan(
    items: Seq<Item>,
    account: Seq<char>,
    imported: Seq<Seq<char>>,
    vault: Seq<Seq<char>>,
    taken: Seq<Seq<char>>,
    dir: Seq<char>,
    captured_at: Seq<char>,
) -> Plan {
    planned(
        sorted::<StampedItem>(all_stamped(items, captured_at)),
        account,
        imported,
        vault,
        taken,
        dir,
        captured_at,
    )
}

/// An item with its moment and due date written out.
fn stamp_item(item: &CapturedItem, captured_at: &str) -> (out: StampedItem)
    ensures
        out@ == stamped(item@, captured_at@),
{
    let stamp: Option<String> = match item.occurred_at {
        Some(m) => format_moment(m.seconds, m.offset, "%Y-%m-%d-%H%M"),
        None => match parse_rfc3339(captured_at) {
            Some((seconds, _, offset)) => format_moment(seconds, offset, "%Y-%m-%d-%H%M"),
            None => None,
        },
    };
    let due: Option<String> = match item.due {
        Some(d) => format_date(d.year, d.month, d.day, "%Y-%m-%d"),
        None => None,
    };
    StampedItem { item: item.copy(), stamp, due }
}

/// The capture planner, into a folder. `imported` is the loaded state;
/// `vault_digests` is the rebuild scan's answer; `taken_stems` are the file
/// stems already in the folder. `captured_at` is an RFC 3339 timestamp stamped
/// by the caller, also the filename fallback for items without their own
/// moment.
pub fn plan_capture(
    items: &[CapturedItem],
    account: &str,
    imported: &[String],
    vault_digests: &[String],
    taken_stems: &[String],
    dir: &str,
    captured_at: &str,
) -> (plan: InboxPlan)
    ensures
        plan@ == capture_plan(
            views(items@),
            account@,
            strings(imported@),
            strings(vault_digests@),
            strings(taken_stems@),
            dir@,
            captured_at@,
        ),
{
    let ghost all = all_stamped(views(items@), captured_at@);
    let mut ready: Vec<StampedItem> = Vec::new();
    let mut i: usize = 0;
    assert(views(ready@) =~= all.take(0));
    while i < items.len()
        invariant
            i <= items@.len(),
            all == all_stamped(views(items@), captured_at@),
            views(ready@) == all.take(i as int),
        decreases items@.len() - i,
    {
        let ghost before = ready@;
        let x = stamp_item(&items[i], captured_at);
        assert(all[i as int] == x@);
        ready.push(x);
        assert(views(ready@) =~= views(before).push(x@));
        assert(all.take(i + 1) =~= all.take(i as int).push(x@));
        i = i + 1;
    }
    assert(all.take(all.len() as int) =~= all);
    plan_stamped(ready, account, imported, vault_digests, taken_stems, dir, captured_at)
}

/// The capture planner, into the configured landing zone.
pub fn plan_inbox_capture(
    items: &[CapturedItem],
    account: &str,
    imported: &[String],
    vault_digests: &[String],
    taken_stems: &[String],
    config: &InboxConfig,
    captured_at: &str,
) -> (plan: InboxPlan)
    ensures
        plan@ == capture_plan(
            views(items@),
            account@,
            strings(imported@),
            strings(vault_digests@),
            strings(taken_stems@),
            config.dir@,
            captured_at@,
        ),
{
    plan_capture(
        items,
        account,
        imported,
        vault_digests,
        taken_stems,
        config.dir.as_str(),
        captured_at,
    )
}

/// The `capture:` digest from an inbox note's frontmatter, for rebuilding
/// state from the vault. A hand-written note without frontmatter is a valid
/// inbox item and simply has no digest.
pub fn inbox_note_digest(content: &str) -> (found: Option<String>)
    ensures
        match found {
            Some(v) => frontmatter_value(content@, "capture:"@) == Some(v@),
            None => frontmatter_value(content@, "capture:"@) is None,
        },
{
    read_frontmatter(content, "capture:")
}

/// Every id of an `<!--inbox:…-->` marker in the triage log, each once.
pub fn scan_triage_log_markers(text: &str) -> (ids: Vec<String>)
    ensures
        distinct(ids@),
        forall|id: Seq<char>| #[trigger]
            holds(ids@, id) == marker_ids(text@, "<!--inbox:"@).contains(id),
{
    proof {
        reveal_strlit("<!--inbox:");
    }
    scan_markers(text, "<!--inbox:")
}

} // verus!
