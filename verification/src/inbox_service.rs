//! The inbox service's decisions: what a scan of the landing zone tells, how
//! the sources' answers come together, and what a capture writes and records.
//! Note files come first, then the dedup state.

use vstd::prelude::*;
use crate::calendar_service::same_opt;
use crate::getting_started::pairs;
use crate::gmail_service::{
    add_texts, folder_digests, folder_stems, has_digest_stem, note_steps, push_note_steps,
    scan_folder, FolderFile, Landing, LandingStep,
};
use crate::inbox::{
    scan_triage_log_markers, text_of, CapturedItem, ImportRecord, InboxConfig, InboxFetched,
    InboxPlan, Item, Plan, Record,
};
use crate::json::{json_field, json_object, to_json_object};
use crate::lines::strings;
use crate::sort::views;
use crate::sync::{Ended, Settings, SyncOutcome};
use crate::text::{begins, own, same_str, stands_at, to_chars};
use crate::words::{holds, list_holds, marker_ids};

verus! {

/// The inbox configuration with the connected account.
#[derive(Debug, Clone, PartialEq)]
pub struct InboxSettings {
    pub config: InboxConfig,
    pub account: Option<String>,
}

/// What the settings say.
pub struct InboxSetup {
    pub dir: Seq<char>,
    pub poll_interval: u64,
    pub gmail_enabled: bool,
    pub gmail_label: Seq<char>,
    pub tasks_enabled: bool,
    pub tasks_list: Option<Seq<char>>,
    pub account: Option<Seq<char>>,
}

impl View for InboxSettings {
    type V = InboxSetup;

    open spec fn view(&self) -> InboxSetup {
        InboxSetup {
            dir: self.config.dir@,
            poll_interval: self.config.poll_interval,
            gmail_enabled: self.config.gmail_enabled,
            gmail_label: self.config.gmail_label@,
            tasks_enabled: self.config.tasks_enabled,
            tasks_list: text_of(self.config.tasks_list),
            account: text_of(self.account),
        }
    }
}

impl Settings for InboxSettings {
    fn same(&self, other: &Self) -> (yes: bool) {
        let a = &self.config;
        let b = &other.config;
        same_str(a.dir.as_str(), b.dir.as_str()) && a.poll_interval == b.poll_interval
            && a.gmail_enabled == b.gmail_enabled && same_str(
            a.gmail_label.as_str(),
            b.gmail_label.as_str(),
        ) && a.tasks_enabled == b.tasks_enabled && same_opt(&a.tasks_list, &b.tasks_list)
            && same_opt(&self.account, &other.account)
    }
}

/// Whether the settings give any source to poll: mail has a service of its own,
/// so Google Tasks is the one.
pub fn has_sources(config: &InboxConfig) -> (yes: bool)
    ensures
        yes == config.tasks_enabled,
{
    config.tasks_enabled
}

/// The folder to reveal: the configured landing zone, else the usual one.
pub fn landing_zone(config: &Option<InboxConfig>) -> (dir: String)
    ensures
        dir@ == (match config {
            Some(c) => c.dir@,
            None => "inbox"@,
        }),
{
    match config {
        Some(c) => c.dir.clone(),
        None => own("inbox"),
    }
}

/// Whether a path is a folder or lies in it.
pub open spec fn is_within(path: Seq<char>, dir: Seq<char>) -> bool {
    path == dir || begins(path, dir + seq!['/'])
}

/// Whether one of the changed paths lies in the landing zone, so that the queue
/// has to be counted again.
pub fn queue_changed(paths: &[String], dir: &str) -> (yes: bool)
    ensures
        yes == (exists|i: int| 0 <= i < paths@.len() && is_within(#[trigger] paths@[i]@, dir@)),
{
    let mut prefix: Vec<char> = to_chars(dir);
    prefix.push('/');
    assert(prefix@ =~= dir@ + seq!['/']);
    let mut i: usize = 0;
    while i < paths.len()
        invariant
            i <= paths@.len(),
            prefix@ == dir@ + seq!['/'],
            forall|j: int| 0 <= j < i ==> !is_within(#[trigger] paths@[j]@, dir@),
        decreases paths@.len() - i,
    {
        if same_str(paths[i].as_str(), dir) || stands_at(
            to_chars(paths[i].as_str()).as_slice(),
            prefix.as_slice(),
            0,
        ) {
            assert(is_within(paths@[i as int]@, dir@));
            return true;
        }
        i = i + 1;
    }
    false
}

/// What a poll learned from the vault before it asks the sources.
pub struct InboxScan {
    pub stems: Vec<String>,
    pub digests: Vec<String>,
    /// How many notes wait in the landing zone.
    pub depth: usize,
}

/// Scans the landing zone and the triage log: stems for collisions, digests and
/// markers as the record that state can be rebuilt from, and the queue's
/// length. A folder that is missing has no files.
pub fn scan_inbox(files: &[FolderFile], triage_log: Option<&str>) -> (scan: InboxScan)
    ensures
        strings(scan.stems@) == folder_stems(views(files@)),
        scan.depth == folder_stems(views(files@)).len(),
        forall|d: Seq<char>| #[trigger]
            holds(scan.digests@, d) == (has_digest_stem(folder_digests(views(files@), false), d) || (
            triage_log is Some && marker_ids(triage_log->0@, "<!--inbox:"@).contains(d))),
{
    let dir = scan_folder(files, false);
    let mut digests: Vec<String> = Vec::new();
    let ghost found = pairs(dir.digest_stems@);
    let mut i: usize = 0;
    while i < dir.digest_stems.len()
        invariant
            i <= dir.digest_stems@.len(),
            found == pairs(dir.digest_stems@),
            forall|d: Seq<char>| #[trigger]
                holds(digests@, d) == has_digest_stem(found.take(i as int), d),
        decreases dir.digest_stems@.len() - i,
    {
        let ghost digests0 = digests@;
        let digest = &dir.digest_stems[i].0;
        assert(found[i as int].0 == digest@);
        if !list_holds(digests.as_slice(), digest.as_str()) {
            digests.push(digest.clone());
            assert(strings(digests@) =~= strings(digests0).push(digest@));
        }
        assert forall|d: Seq<char>| #[trigger]
            holds(digests@, d) == has_digest_stem(found.take(i + 1), d) by {
            assert(holds(digests0, d) == has_digest_stem(found.take(i as int), d));
            crate::words::lemma_push_contains(strings(digests0), digest@, d);
            let a = found.take(i as int);
            let b = found.take(i + 1);
            if has_digest_stem(a, d) {
                let k = choose|k: int| 0 <= k < a.len() && (#[trigger] a[k]).0 == d;
                assert(b[k] == a[k]);
            }
            if d == digest@ {
                assert(b[i as int].0 == d);
            }
            if has_digest_stem(b, d) {
                let k = choose|k: int| 0 <= k < b.len() && (#[trigger] b[k]).0 == d;
                if k < i {
                    assert(a[k] == b[k]);
                }
            }
        }
        i = i + 1;
    }
    assert(found.take(found.len() as int) =~= found);
    if let Some(log) = triage_log {
        let markers = scan_triage_log_markers(log);
        add_texts(&mut digests, markers.as_slice());
    }
    let depth: usize = dir.stems.len();
    assert(strings(dir.stems@).len() == depth);
    InboxScan { stems: dir.stems, digests, depth }
}

/// A source's answer for one poll.
pub enum SourceAnswer {
    Fetched(InboxFetched),
    Failed(String),
    AuthRevoked,
}

/// What an answer says.
pub enum Reply {
    Items(Seq<Item>),
    Holding(Seq<char>),
    Failed(Seq<char>),
    AuthRevoked,
}

impl View for SourceAnswer {
    type V = Reply;

    open spec fn view(&self) -> Reply {
        match *self {
            SourceAnswer::Fetched(InboxFetched::Items(items)) => Reply::Items(views(items@)),
            SourceAnswer::Fetched(InboxFetched::Holding(reason)) => Reply::Holding(reason@),
            SourceAnswer::Failed(error) => Reply::Failed(error@),
            SourceAnswer::AuthRevoked => Reply::AuthRevoked,
        }
    }
}

/// What the sources' answers come to so far.
pub struct Collected {
    pub items: Vec<CapturedItem>,
    /// The first reason to hold.
    pub holding: Option<String>,
    /// The first error.
    pub failed: Option<String>,
}

/// What is collected.
pub struct Gathered {
    pub items: Seq<Item>,
    pub holding: Option<Seq<char>>,
    pub failed: Option<Seq<char>>,
}

impl View for Collected {
    type V = Gathered;

    open spec fn view(&self) -> Gathered {
        Gathered {
            items: views(self.items@),
            holding: text_of(self.holding),
            failed: text_of(self.failed),
        }
    }
}

/// What is collected once one more source has answered. Errors stay with their
/// source: one that fails never blocks the capture of another.
pub open spec fn with_reply(g: Gathered, reply: Reply) -> Gathered {
    match reply {
        Reply::Items(items) => Gathered { items: g.items + items, ..g },
        Reply::Holding(reason) => Gathered {
            holding: if g.holding is Some {
                g.holding
            } else {
                Some(reason)
            },
            ..g
        },
        Reply::Failed(error) => Gathered {
            failed: if g.failed is Some {
                g.failed
            } else {
                Some(error)
            },
            ..g
        },
        Reply::AuthRevoked => g,
    }
}

impl Collected {
    /// Nothing yet.
    pub fn new() -> (c: Self)
        ensures
            c@ == (Gathered { items: Seq::empty(), holding: None, failed: None }),
    {
        let c = Collected { items: Vec::new(), holding: None, failed: None };
        assert(c@.items =~= Seq::<Item>::empty());
        c
    }

    /// Takes in a source's answer. The result is whether to ask the next one: a
    /// revoked grant ends the poll.
    pub fn take(&mut self, answer: SourceAnswer) -> (go_on: bool)
        ensures
            go_on == !(answer@ is AuthRevoked),
            final(self)@ == with_reply(old(self)@, answer@),
    {
        match answer {
            SourceAnswer::Fetched(InboxFetched::Items(items)) => {
                let ghost base = views(self.items@);
                let ghost all = views(items@);
                let ghost holding0 = self.holding;
                let ghost failed0 = self.failed;
                let mut i: usize = 0;
                while i < items.len()
                    invariant
                        i <= items@.len(),
                        all == views(items@),
                        views(self.items@) == base + all.take(i as int),
                        self.holding == holding0,
                        self.failed == failed0,
                    decreases items@.len() - i,
                {
                    let ghost before = self.items@;
                    let copy = items[i].copy();
                    self.items.push(copy);
                    assert(views(self.items@) =~= views(before).push(copy@));
                    assert(all.take(i + 1) =~= all.take(i as int).push(all[i as int]));
                    i = i + 1;
                }
                assert(all.take(all.len() as int) =~= all);
                true
            },
            SourceAnswer::Fetched(InboxFetched::Holding(reason)) => {
                if self.holding.is_none() {
                    self.holding = Some(reason);
                }
                true
            },
            SourceAnswer::Failed(error) => {
                if self.failed.is_none() {
                    self.failed = Some(error);
                }
                true
            },
            SourceAnswer::AuthRevoked => false,
        }
    }
}

/// How a poll ends: with the first error, else the first reason to hold, else
/// with what it captured.
pub open spec fn poll_end(
    failed: Option<Seq<char>>,
    holding: Option<Seq<char>>,
    captured: usize,
) -> Ended {
    match failed {
        Some(error) => Ended::Failed(error),
        None => match holding {
            Some(reason) => Ended::Held(reason),
            None => Ended::Synced(captured),
        },
    }
}

/// How a poll ends.
pub fn poll_outcome(failed: Option<String>, holding: Option<String>, captured: usize) -> (outcome:
    SyncOutcome)
    ensures
        outcome@ == poll_end(text_of(failed), text_of(holding), captured),
{
    match failed {
        Some(error) => SyncOutcome::Failed(error),
        None => match holding {
            Some(reason) => SyncOutcome::Held(reason),
            None => SyncOutcome::Synced { captured },
        },
    }
}

/// A healthy source's items are collected whatever the others answer.
pub proof fn one_source_never_blocks_another(g: Gathered, a: Reply, b: Reply)
    requires
        !(a is Items),
    ensures
        with_reply(with_reply(g, a), b).items == with_reply(g, b).items,
        with_reply(with_reply(g, b), a).items == with_reply(g, b).items,
{
}

/// The fields of an item's record.
pub open spec fn item_fields(r: Record, at: Seq<char>) -> Seq<(Seq<char>, Seq<char>)> {
    seq![
        ("digest"@, r.digest),
        ("source"@, r.source),
        ("id"@, r.external_id),
        ("title"@, r.title),
        ("at"@, at),
    ]
}

/// The record of a captured item, as a line of the state file.
pub fn item_record(record: &ImportRecord, at: &str) -> (entry: String)
    ensures
        entry@ == json_object(item_fields(record@, at@)),
        entry@.len() > 0,
        !entry@.contains('\n'),
        !entry@.contains('\r'),
        json_field(entry@, "digest"@) == Some(record.digest@),
{
    let mut fields: Vec<(String, String)> = Vec::new();
    fields.push((own("digest"), record.digest.clone()));
    fields.push((own("source"), own(record.source)));
    fields.push((own("id"), record.external_id.clone()));
    fields.push((own("title"), record.title.clone()));
    fields.push((own("at"), own(at)));
    assert(pairs(fields@) =~= item_fields(record@, at@));
    proof {
        reveal_strlit("digest");
        reveal_strlit("source");
        reveal_strlit("id");
        reveal_strlit("title");
        reveal_strlit("at");
        assert("digest"@[0] == 'd' && "source"@[0] == 's' && "id"@[0] == 'i' && "title"@[0] == 't'
            && "at"@[0] == 'a');
        assert forall|j: int| 0 < j < fields@.len() implies (#[trigger] fields@[j]).0@
            != fields@[0].0@ by {}
    }
    let entry = to_json_object(fields.as_slice());
    assert(json_field(entry@, fields@[0].0@) == Some(fields@[0].1@));
    entry
}

/// The lines that record a plan's items.
pub open spec fn item_records(records: Seq<Record>, at: Seq<char>) -> Seq<Seq<char>> {
    records.map_values(|r: Record| json_object(item_fields(r, at)))
}

/// The steps that land a plan: the notes, then the state.
pub open spec fn inbox_landing(plan: Plan, at: Seq<char>) -> Seq<Landing> {
    note_steps(plan.files) + (if plan.records.len() > 0 {
        seq![Landing::Record(item_records(plan.records, at))]
    } else {
        Seq::empty()
    })
}

/// The steps that land a plan, in crash-safe order: a crash between the two
/// leaves notes whose frontmatter repairs the state on the next poll.
pub fn inbox_steps(plan: &InboxPlan, captured_at: &str) -> (steps: Vec<LandingStep>)
    ensures
        views(steps@) == inbox_landing(plan@, captured_at@),
{
    let mut steps: Vec<LandingStep> = Vec::new();
    assert(views(steps@) =~= Seq::<Landing>::empty());
    push_note_steps(&mut steps, &plan.files);
    assert(views(steps@) =~= note_steps(plan@.files));
    let ghost all = item_records(plan@.records, captured_at@);
    let mut entries: Vec<String> = Vec::new();
    let mut i: usize = 0;
    while i < plan.newly_imported.len()
        invariant
            i <= plan.newly_imported@.len(),
            plan@.records == views(plan.newly_imported@),
            all == item_records(plan@.records, captured_at@),
            strings(entries@) == all.take(i as int),
        decreases plan.newly_imported@.len() - i,
    {
        let ghost before = entries@;
        let entry = item_record(&plan.newly_imported[i], captured_at);
        assert(plan@.records[i as int] == plan.newly_imported@[i as int]@);
        assert(all[i as int] == entry@);
        entries.push(entry);
        assert(strings(entries@) =~= strings(before).push(entry@));
        assert(all.take(i + 1) =~= all.take(i as int).push(entry@));
        i = i + 1;
    }
    assert(all.take(all.len() as int) =~= all);
    if entries.len() > 0 {
        let ghost steps0 = steps@;
        steps.push(LandingStep::Record(entries));
        assert(views(steps@) =~= views(steps0).push(Landing::Record(all)));
    }
    assert(views(steps@) =~= inbox_landing(plan@, captured_at@));
    steps
}

} // verus!
