//! The Gmail service's decisions: what a scan of the vault tells, what a poll
//! plans, which tasks it adds to the backlog, and what it records. Everything
//! is applied in crash-safe order: note files first, then the backlog lines,
//! then the dedup state.

use vstd::prelude::*;
use vstd::slice::slice_subrange;
use crate::calendar_service::{same_opt, with_entries};
use crate::getting_started::pairs;
use crate::gmail::{
    archive_frontmatter_digest, scan_backlog_markers, GmailConfig, GmailFetched, Mapping,
    MappingFetched, SyncMapping,
};
use crate::inbox::{
    capture_plan, inbox_note_digest, plan_capture, text_of, File, ImportRecord, InboxFile,
    InboxPlan, Item, Plan, Record,
};
use crate::json::{json_field, json_object, read_json_field, to_json_object};
use crate::lines::{lines, split_lines, strings, texts};
use crate::sort::views;
use crate::sync::{after_apply, BufferStep, Settings};
use crate::text::{
    append, append_str, from_chars, last_position, own, rfind, same, same_str, to_chars,
};
use crate::words::{frontmatter_value, holds, list_holds, marker_ids};

verus! {

/// The folder whose notes get a backlog line.
pub const EMAIL_ARCHIVE_DIR: &'static str = "archives/emails";

/// Where captured threads are recorded.
pub const GMAIL_STATE_PATH: &'static str = ".thock/state/gmail/imported.jsonl";

/// Where captured items are recorded.
pub const INBOX_STATE_PATH: &'static str = ".thock/state/inbox/imported.jsonl";

/// What a Gmail configuration says.
pub struct GmailSettings {
    pub account: Option<Seq<char>>,
    pub mappings: Seq<Mapping>,
    pub poll_interval: u64,
    pub client_id: Option<Seq<char>>,
    pub client_secret: Option<Seq<char>>,
}

impl View for GmailConfig {
    type V = GmailSettings;

    open spec fn view(&self) -> GmailSettings {
        GmailSettings {
            account: text_of(self.account),
            mappings: views(self.mappings@),
            poll_interval: self.poll_interval,
            client_id: text_of(self.google.client_id),
            client_secret: text_of(self.google.client_secret),
        }
    }
}

/// Whether two maps are the same.
fn same_mappings(a: &Vec<SyncMapping>, b: &Vec<SyncMapping>) -> (yes: bool)
    ensures
        yes == (views(a@) == views(b@)),
{
    if a.len() != b.len() {
        assert(views(a@).len() != views(b@).len());
        return false;
    }
    let mut i: usize = 0;
    while i < a.len()
        invariant
            i <= a@.len(),
            a@.len() == b@.len(),
            forall|j: int| 0 <= j < i ==> #[trigger] a@[j]@ == b@[j]@,
        decreases a@.len() - i,
    {
        if !same_str(a[i].label.as_str(), b[i].label.as_str()) || !same_str(
            a[i].path.as_str(),
            b[i].path.as_str(),
        ) {
            assert(views(a@)[i as int] == a@[i as int]@);
            assert(views(b@)[i as int] == b@[i as int]@);
            assert(a@[i as int]@.label == a@[i as int].label@);
            assert(a@[i as int]@.path == a@[i as int].path@);
            return false;
        }
        i = i + 1;
    }
    assert(views(a@) =~= views(b@));
    true
}

impl Settings for GmailConfig {
    fn same(&self, other: &Self) -> (yes: bool) {
        same_opt(&self.account, &other.account) && same_mappings(&self.mappings, &other.mappings)
            && self.poll_interval == other.poll_interval && same_opt(
            &self.google.client_id,
            &other.google.client_id,
        ) && same_opt(&self.google.client_secret, &other.google.client_secret)
    }
}

/// The stem of a note's file name: without `.md`, and not hidden; `None` for
/// any other file.
pub open spec fn note_stem(name: Seq<char>) -> Option<Seq<char>> {
    match rfind(name, "."@) {
        Some(at) => if at > 0 && name.skip(at + 1) == "md"@ && name[0] != '.' {
            Some(name.take(at))
        } else {
            None
        },
        None => None,
    }
}

/// The stem of a note's file name. Hidden files and other extensions never
/// count.
pub fn stem_of_note(name: &str) -> (stem: Option<String>)
    ensures
        text_of(stem) == note_stem(name@),
{
    let chars = to_chars(name);
    proof {
        reveal_strlit(".");
        crate::text::lemma_rfind_to(name@, "."@, name@.len() - 1);
    }
    match last_position(chars.as_slice(), to_chars(".").as_slice()) {
        Some(at) => {
            if at == 0 || chars[0] == '.' {
                return None;
            }
            let n: usize = chars.len();
            assert(at + 1 <= n);
            let extension = slice_subrange(chars.as_slice(), at + 1, n);
            assert(extension@ =~= name@.skip(at + 1));
            if !same(extension, to_chars("md").as_slice()) {
                return None;
            }
            let stem = slice_subrange(chars.as_slice(), 0, at);
            assert(stem@ =~= name@.take(at as int));
            Some(from_chars(stem))
        },
        None => None,
    }
}

/// A file of a folder, with its text where it can be read.
pub struct FolderFile {
    pub name: String,
    pub content: Option<String>,
}

/// What a file holds.
pub struct Found {
    pub name: Seq<char>,
    pub content: Option<Seq<char>>,
}

impl View for FolderFile {
    type V = Found;

    open spec fn view(&self) -> Found {
        Found { name: self.name@, content: text_of(self.content) }
    }
}

/// A folder's answer, fresh on every poll: triage moves files out between
/// polls, so a kept scan would go stale.
pub struct DirScan {
    pub stems: Vec<String>,
    /// The digest and the stem of each note that has one.
    pub digest_stems: Vec<(String, String)>,
}

/// The stems of the notes of a folder.
pub open spec fn folder_stems(files: Seq<Found>) -> Seq<Seq<char>>
    decreases files.len(),
{
    if files.len() == 0 {
        Seq::empty()
    } else {
        let above = folder_stems(files.drop_last());
        match note_stem(files.last().name) {
            Some(stem) => above.push(stem),
            None => above,
        }
    }
}

/// The digest of a note: its own, or that of the older format.
pub open spec fn note_digest(content: Option<Seq<char>>, older: bool) -> Option<Seq<char>> {
    match content {
        Some(text) => match frontmatter_value(text, "capture:"@) {
            Some(d) => Some(d),
            None => if older {
                frontmatter_value(text, "thread:"@)
            } else {
                None
            },
        },
        None => None,
    }
}

/// The digests of the notes of a folder, each with the note's stem.
pub open spec fn folder_digests(files: Seq<Found>, older: bool) -> Seq<(Seq<char>, Seq<char>)>
    decreases files.len(),
{
    if files.len() == 0 {
        Seq::empty()
    } else {
        let above = folder_digests(files.drop_last(), older);
        match (note_stem(files.last().name), note_digest(files.last().content, older)) {
            (Some(stem), Some(digest)) => above.push((digest, stem)),
            _ => above,
        }
    }
}

/// Scans a folder: the stems of its notes, and the digests that they carry.
/// `older` says whether digests of the older format count too.
pub fn scan_folder(files: &[FolderFile], older: bool) -> (scan: DirScan)
    ensures
        strings(scan.stems@) == folder_stems(views(files@)),
        pairs(scan.digest_stems@) == folder_digests(views(files@), older),
{
    let ghost all = views(files@);
    let mut stems: Vec<String> = Vec::new();
    let mut digest_stems: Vec<(String, String)> = Vec::new();
    let mut i: usize = 0;
    assert(all.take(0) =~= Seq::<Found>::empty());
    assert(strings(stems@) =~= Seq::<Seq<char>>::empty());
    assert(pairs(digest_stems@) =~= Seq::<(Seq<char>, Seq<char>)>::empty());
    while i < files.len()
        invariant
            i <= files@.len(),
            all == views(files@),
            strings(stems@) == folder_stems(all.take(i as int)),
            pairs(digest_stems@) == folder_digests(all.take(i as int), older),
        decreases files@.len() - i,
    {
        let file = &files[i];
        let ghost stems0 = stems@;
        let ghost digests0 = digest_stems@;
        proof {
            assert(all.take(i + 1).drop_last() =~= all.take(i as int));
            assert(all.take(i + 1).last() == file@);
        }
        if let Some(stem) = stem_of_note(file.name.as_str()) {
            stems.push(stem.clone());
            assert(strings(stems@) =~= strings(stems0).push(stem@));
            let mut digest: Option<String> = None;
            if let Some(content) = &file.content {
                digest = inbox_note_digest(content.as_str());
                if older && digest.is_none() {
                    digest = archive_frontmatter_digest(content.as_str());
                }
            }
            assert(text_of(digest) == note_digest(file@.content, older));
            if let Some(digest) = digest {
                digest_stems.push((digest, stem));
                assert(pairs(digest_stems@) =~= pairs(digests0).push((digest@, stem@)));
            }
        }
        i = i + 1;
    }
    assert(all.take(all.len() as int) =~= all);
    DirScan { stems, digest_stems }
}

/// Adds texts to a list that does not hold them yet.
pub fn add_texts(list: &mut Vec<String>, more: &[String])
    ensures
        forall|x: Seq<char>| #[trigger]
            holds(final(list)@, x) == (holds(old(list)@, x) || holds(more@, x)),
{
    let ghost before = strings(list@);
    let ghost all = strings(more@);
    let mut i: usize = 0;
    assert(all.take(0) =~= Seq::<Seq<char>>::empty());
    while i < more.len()
        invariant
            i <= more@.len(),
            before == strings(old(list)@),
            all == strings(more@),
            forall|x: Seq<char>| #[trigger]
                holds(list@, x) == (before.contains(x) || all.take(i as int).contains(x)),
        decreases more@.len() - i,
    {
        let ghost list0 = list@;
        let ghost above = all.take(i as int);
        let ghost item = more@[i as int]@;
        assert(all.take(i + 1) =~= above.push(item));
        if !list_holds(list.as_slice(), more[i].as_str()) {
            list.push(more[i].clone());
            assert(strings(list@) =~= strings(list0).push(item));
        }
        assert forall|x: Seq<char>| #[trigger] holds(list@, x) == (before.contains(x) || all.take(
            i + 1,
        ).contains(x)) by {
            crate::words::lemma_push_contains(above, item, x);
            crate::words::lemma_push_contains(strings(list0), item, x);
            assert(holds(list0, x) == (before.contains(x) || above.contains(x)));
        }
        i = i + 1;
    }
    assert(all.take(all.len() as int) =~= all);
}

/// A copy of a list of strings.
pub(crate) fn copy_list(list: &[String]) -> (copy: Vec<String>)
    ensures
        strings(copy@) == strings(list@),
{
    let mut copy: Vec<String> = Vec::new();
    let mut i: usize = 0;
    while i < list.len()
        invariant
            i <= list@.len(),
            copy@.len() == i,
            forall|j: int| 0 <= j < i ==> #[trigger] copy@[j]@ == list@[j]@,
        decreases list@.len() - i,
    {
        copy.push(list[i].clone());
        i = i + 1;
    }
    assert(strings(copy@) =~= strings(list@));
    copy
}

/// What the transport is told to skip: everything recorded anywhere, so that a
/// captured thread costs no request of its own.
pub fn skip_list(imported: &[String], digests: &[String], markers: &[String]) -> (skip: Vec<String>)
    ensures
        forall|x: Seq<char>| #[trigger]
            holds(skip@, x) == (holds(imported@, x) || holds(digests@, x) || holds(markers@, x)),
{
    let mut skip = copy_list(imported);
    assert(forall|x: Seq<char>| #[trigger] holds(skip@, x) == holds(imported@, x));
    add_texts(&mut skip, digests);
    add_texts(&mut skip, markers);
    skip
}

/// The digests that the vault itself records: in notes, in the triage log, and
/// in the backlog. A line whose archive the user deleted stays deleted.
pub fn vault_digests(
    dirs: &[DirScan],
    triage_markers: &[String],
    backlog_markers: &[String],
) -> (digests: Vec<String>)
    ensures
        forall|x: Seq<char>| #[trigger]
            holds(digests@, x) == ((exists|i: int|
                0 <= i < dirs@.len() && has_digest_stem(
                    pairs((#[trigger] dirs@[i]).digest_stems@),
                    x,
                )) || holds(triage_markers@, x) || holds(backlog_markers@, x)),
{
    let mut digests: Vec<String> = Vec::new();
    let mut i: usize = 0;
    while i < dirs.len()
        invariant
            i <= dirs@.len(),
            forall|x: Seq<char>| #[trigger]
                holds(digests@, x) == (exists|k: int|
                    0 <= k < i && has_digest_stem(pairs((#[trigger] dirs@[k]).digest_stems@), x)),
        decreases dirs@.len() - i,
    {
        let ghost digests0 = digests@;
        let own_digests = first_texts(&dirs[i].digest_stems);
        add_texts(&mut digests, own_digests.as_slice());
        assert forall|x: Seq<char>| #[trigger] holds(digests@, x) == (exists|k: int|
            0 <= k < i + 1 && has_digest_stem(pairs((#[trigger] dirs@[k]).digest_stems@), x)) by {
            assert(holds(digests@, x) == (holds(digests0, x) || holds(own_digests@, x)));
            if holds(own_digests@, x) {
                assert(has_digest_stem(pairs(dirs@[i as int].digest_stems@), x));
            }
            if holds(digests0, x) {
                let k = choose|k: int|
                    0 <= k < i && has_digest_stem(pairs((#[trigger] dirs@[k]).digest_stems@), x);
                assert(has_digest_stem(pairs(dirs@[k].digest_stems@), x));
            }
        }
        i = i + 1;
    }
    add_texts(&mut digests, triage_markers);
    add_texts(&mut digests, backlog_markers);
    digests
}

/// Whether a note of the folder carries the digest.
pub open spec fn has_digest_stem(list: Seq<(Seq<char>, Seq<char>)>, digest: Seq<char>) -> bool {
    exists|i: int| 0 <= i < list.len() && (#[trigger] list[i]).0 == digest
}

/// The first parts of pairs.
fn first_texts(list: &Vec<(String, String)>) -> (out: Vec<String>)
    ensures
        forall|x: Seq<char>| #[trigger] holds(out@, x) == has_digest_stem(pairs(list@), x),
{
    let mut out: Vec<String> = Vec::new();
    let mut i: usize = 0;
    while i < list.len()
        invariant
            i <= list@.len(),
            out@.len() == i,
            forall|j: int| 0 <= j < i ==> #[trigger] out@[j]@ == list@[j].0@,
        decreases list@.len() - i,
    {
        out.push(list[i].0.clone());
        i = i + 1;
    }
    assert forall|x: Seq<char>| #[trigger] holds(out@, x) == has_digest_stem(pairs(list@), x) by {
        if holds(out@, x) {
            let k = choose|k: int| 0 <= k < strings(out@).len() && strings(out@)[k] == x;
            assert(strings(out@)[k] == out@[k]@);
            assert(pairs(list@)[k].0 == x);
        }
        if has_digest_stem(pairs(list@), x) {
            let k = choose|k: int| 0 <= k < pairs(list@).len() && (#[trigger] pairs(list@)[k]).0
                == x;
            assert(out@[k]@ == list@[k].0@);
            assert(strings(out@)[k] == x);
        }
    }
    out
}

/// The stem of the note that carries a digest; of two the later.
pub open spec fn stem_of_digest(list: Seq<(Seq<char>, Seq<char>)>, digest: Seq<char>) -> Option<
    Seq<char>,
>
    decreases list.len(),
{
    if list.len() == 0 {
        None
    } else if list.last().0 == digest {
        Some(list.last().1)
    } else {
        stem_of_digest(list.drop_last(), digest)
    }
}

fn find_stem(list: &Vec<(String, String)>, digest: &str) -> (stem: Option<String>)
    ensures
        text_of(stem) == stem_of_digest(pairs(list@), digest@),
{
    let ghost all = pairs(list@);
    let mut i: usize = list.len();
    assert(all.take(all.len() as int) =~= all);
    while i > 0
        invariant
            i <= list@.len(),
            all == pairs(list@),
            stem_of_digest(all, digest@) == stem_of_digest(all.take(i as int), digest@),
        decreases i,
    {
        assert(all.take(i as int).last() == (list@[i - 1].0@, list@[i - 1].1@));
        assert(all.take(i as int).drop_last() =~= all.take(i - 1));
        if same_str(list[i - 1].0.as_str(), digest) {
            return Some(list[i - 1].1.clone());
        }
        i = i - 1;
    }
    None
}

/// A plan for one mapping.
pub struct MappedPlan {
    pub index: usize,
    pub plan: InboxPlan,
}

/// What a mapped plan holds.
pub struct Mapped {
    pub index: int,
    pub plan: Plan,
}

impl View for MappedPlan {
    type V = Mapped;

    open spec fn view(&self) -> Mapped {
        Mapped { index: self.index as int, plan: self.plan@ }
    }
}

/// What a poll found, per mapping: `None` where the label is missing.
pub open spec fn fetched_items(fetched: Seq<MappingFetched>) -> Seq<Option<Seq<Item>>> {
    fetched.map_values(
        |f: MappingFetched|
            match f {
                MappingFetched::Items(items) => Some(views(items@)),
                MappingFetched::LabelNotFound => None,
            },
    )
}

/// The stems found in the folders that the first mappings share with a path.
pub open spec fn scanned_stems(
    mappings: Seq<Mapping>,
    dirs: Seq<Seq<Seq<char>>>,
    path: Seq<char>,
    n: nat,
) -> Seq<Seq<char>>
    decreases n,
{
    if n == 0 {
        Seq::empty()
    } else {
        let above = scanned_stems(mappings, dirs, path, (n - 1) as nat);
        if n <= mappings.len() && n <= dirs.len() && mappings[n - 1].path == path {
            above + dirs[n - 1]
        } else {
            above
        }
    }
}

/// The stems of files.
pub open spec fn file_stems(files: Seq<File>) -> Seq<Seq<char>> {
    files.map_values(|f: File| f.stem)
}

/// The stems that earlier plans of the poll claimed in a folder.
pub open spec fn planned_stems(
    mappings: Seq<Mapping>,
    plans: Seq<Mapped>,
    path: Seq<char>,
) -> Seq<Seq<char>>
    decreases plans.len(),
{
    if plans.len() == 0 {
        Seq::empty()
    } else {
        let above = planned_stems(mappings, plans.drop_last(), path);
        let last = plans.last();
        if 0 <= last.index < mappings.len() && mappings[last.index].path == path {
            above + file_stems(last.plan.files)
        } else {
            above
        }
    }
}

/// The plans of a poll, for the first mappings: those with something to write
/// or remember. Two mappings may share a folder, so stems claimed by an earlier
/// plan are taken for a later one.
pub open spec fn mail_plans(
    mappings: Seq<Mapping>,
    fetched: Seq<Option<Seq<Item>>>,
    dirs: Seq<Seq<Seq<char>>>,
    account: Seq<char>,
    imported: Seq<Seq<char>>,
    vault: Seq<Seq<char>>,
    at: Seq<char>,
    n: nat,
) -> Seq<Mapped>
    decreases n,
{
    if n == 0 {
        Seq::empty()
    } else {
        let prev = mail_plans(
            mappings,
            fetched,
            dirs,
            account,
            imported,
            vault,
            at,
            (n - 1) as nat,
        );
        if n > mappings.len() || n > fetched.len() || fetched[n - 1] is None || fetched[n
            - 1]->0.len() == 0 {
            prev
        } else {
            let path = mappings[n - 1].path;
            let taken = scanned_stems(mappings, dirs, path, mappings.len()) + planned_stems(
                mappings,
                prev,
                path,
            );
            let plan = capture_plan(
                fetched[n - 1]->0,
                account,
                imported,
                vault,
                taken,
                path,
                at,
            );
            if plan.files.len() == 0 && plan.records.len() == 0 {
                prev
            } else {
                prev.push(Mapped { index: n - 1, plan })
            }
        }
    }
}

/// The labels that were not found, among the first mappings.
pub open spec fn missing_labels(
    mappings: Seq<Mapping>,
    fetched: Seq<Option<Seq<Item>>>,
    n: nat,
) -> Seq<Seq<char>>
    decreases n,
{
    if n == 0 {
        Seq::empty()
    } else {
        let above = missing_labels(mappings, fetched, (n - 1) as nat);
        if n <= mappings.len() && n <= fetched.len() && fetched[n - 1] is None {
            above.push(mappings[n - 1].label)
        } else {
            above
        }
    }
}

/// The stems of scanned folders.
pub open spec fn dir_stems(dirs: Seq<DirScan>) -> Seq<Seq<Seq<char>>> {
    dirs.map_values(|d: DirScan| strings(d.stems@))
}

fn push_all(out: &mut Vec<String>, more: &[String])
    ensures
        strings(final(out)@) == strings(old(out)@) + strings(more@),
{
    let ghost base = strings(out@);
    let mut i: usize = 0;
    while i < more.len()
        invariant
            i <= more@.len(),
            strings(out@) == base + strings(more@).take(i as int),
        decreases more@.len() - i,
    {
        let ghost before = out@;
        out.push(more[i].clone());
        assert(strings(out@) =~= strings(before).push(more@[i as int]@));
        assert(strings(more@).take(i + 1) =~= strings(more@).take(i as int).push(
            more@[i as int]@,
        ));
        i = i + 1;
    }
    assert(strings(more@).take(more@.len() as int) =~= strings(more@));
}

fn push_file_stems(out: &mut Vec<String>, files: &Vec<InboxFile>)
    ensures
        strings(final(out)@) == strings(old(out)@) + file_stems(views(files@)),
{
    let ghost base = strings(out@);
    let ghost all = file_stems(views(files@));
    let mut i: usize = 0;
    while i < files.len()
        invariant
            i <= files@.len(),
            all == file_stems(views(files@)),
            strings(out@) == base + all.take(i as int),
        decreases files@.len() - i,
    {
        let ghost before = out@;
        out.push(files[i].stem.clone());
        assert(all[i as int] == files@[i as int].stem@);
        assert(strings(out@) =~= strings(before).push(files@[i as int].stem@));
        assert(all.take(i + 1) =~= all.take(i as int).push(files@[i as int].stem@));
        i = i + 1;
    }
    assert(all.take(all.len() as int) =~= all);
}

fn taken_stems(
    mappings: &[SyncMapping],
    dirs: &[DirScan],
    plans: &Vec<MappedPlan>,
    path: &str,
) -> (taken: Vec<String>)
    ensures
        strings(taken@) == scanned_stems(
            views(mappings@),
            dir_stems(dirs@),
            path@,
            mappings@.len(),
        ) + planned_stems(views(mappings@), views(plans@), path@),
{
    let ghost maps = views(mappings@);
    let ghost stems = dir_stems(dirs@);
    let mut taken: Vec<String> = Vec::new();
    let mut i: usize = 0;
    assert(strings(taken@) =~= Seq::<Seq<char>>::empty());
    while i < mappings.len()
        invariant
            i <= mappings@.len(),
            maps == views(mappings@),
            stems == dir_stems(dirs@),
            strings(taken@) == scanned_stems(maps, stems, path@, i as nat),
        decreases mappings@.len() - i,
    {
        assert(maps[i as int].path == mappings@[i as int].path@);
        if i < dirs.len() && same_str(mappings[i].path.as_str(), path) {
            assert(stems[i as int] == strings(dirs@[i as int].stems@));
            push_all(&mut taken, dirs[i].stems.as_slice());
        }
        i = i + 1;
    }
    let ghost scanned = strings(taken@);
    let ghost all = views(plans@);
    let mut j: usize = 0;
    assert(all.take(0) =~= Seq::<Mapped>::empty());
    assert(strings(taken@) =~= scanned + planned_stems(maps, all.take(0), path@));
    while j < plans.len()
        invariant
            j <= plans@.len(),
            maps == views(mappings@),
            all == views(plans@),
            strings(taken@) == scanned + planned_stems(maps, all.take(j as int), path@),
        decreases plans@.len() - j,
    {
        let ghost before = strings(taken@);
        proof {
            assert(all.take(j + 1).drop_last() =~= all.take(j as int));
            assert(all.take(j + 1).last() == plans@[j as int]@);
        }
        let index: usize = plans[j].index;
        if index < mappings.len() {
            assert(maps[index as int].path == mappings@[index as int].path@);
            if same_str(mappings[index].path.as_str(), path) {
                push_file_stems(&mut taken, &plans[j].plan.files);
            }
        }
        assert(strings(taken@) =~= scanned + planned_stems(maps, all.take(j + 1), path@));
        j = j + 1;
    }
    assert(all.take(all.len() as int) =~= all);
    taken
}

/// Plans a poll: for each mapping what its threads make, with the labels that
/// were not found.
pub fn plan_mappings(
    mappings: &[SyncMapping],
    fetched: &[MappingFetched],
    dirs: &[DirScan],
    account: &str,
    imported: &[String],
    vault_digests: &[String],
    captured_at: &str,
) -> (planned: (Vec<MappedPlan>, Vec<String>))
    ensures
        views(planned.0@) == mail_plans(
            views(mappings@),
            fetched_items(fetched@),
            dir_stems(dirs@),
            account@,
            strings(imported@),
            strings(vault_digests@),
            captured_at@,
            fetched@.len(),
        ),
        strings(planned.1@) == missing_labels(
            views(mappings@),
            fetched_items(fetched@),
            fetched@.len(),
        ),
{
    let ghost maps = views(mappings@);
    let ghost items_of = fetched_items(fetched@);
    let mut plans: Vec<MappedPlan> = Vec::new();
    let mut holding: Vec<String> = Vec::new();
    let mut i: usize = 0;
    assert(views(plans@) =~= Seq::<Mapped>::empty());
    assert(strings(holding@) =~= Seq::<Seq<char>>::empty());
    while i < fetched.len()
        invariant
            i <= fetched@.len(),
            maps == views(mappings@),
            items_of == fetched_items(fetched@),
            views(plans@) == mail_plans(
                maps,
                items_of,
                dir_stems(dirs@),
                account@,
                strings(imported@),
                strings(vault_digests@),
                captured_at@,
                i as nat,
            ),
            strings(holding@) == missing_labels(maps, items_of, i as nat),
        decreases fetched@.len() - i,
    {
        let ghost plans0 = plans@;
        let ghost holding0 = holding@;
        if i < mappings.len() {
            let mapping = &mappings[i];
            assert(maps[i as int] == mapping@);
            match &fetched[i] {
                MappingFetched::LabelNotFound => {
                    holding.push(mapping.label.clone());
                    assert(strings(holding@) =~= strings(holding0).push(mapping.label@));
                },
                MappingFetched::Items(items) => {
                    assert(items_of[i as int] == Some(views(items@)));
                    if items.len() > 0 {
                        let taken = taken_stems(mappings, dirs, &plans, mapping.path.as_str());
                        let plan = plan_capture(
                            items.as_slice(),
                            account,
                            imported,
                            vault_digests,
                            taken.as_slice(),
                            mapping.path.as_str(),
                            captured_at,
                        );
                        if !plan.is_empty() {
                            let mapped = MappedPlan { index: i, plan };
                            plans.push(mapped);
                            assert(views(plans@) =~= views(plans0).push(mapped@));
                        }
                    }
                },
            }
        }
        i = i + 1;
    }
    (plans, holding)
}

/// The number of notes that plans write.
pub open spec fn note_count(plans: Seq<Mapped>) -> nat
    decreases plans.len(),
{
    if plans.len() == 0 {
        0
    } else {
        note_count(plans.drop_last()) + plans.last().plan.files.len()
    }
}

/// The number of notes that plans write, as far as it can be counted.
pub fn count_notes(plans: &Vec<MappedPlan>) -> (n: usize)
    ensures
        n == note_count(views(plans@)) || (n == usize::MAX && note_count(views(plans@))
            > usize::MAX),
{
    let ghost all = views(plans@);
    let mut n: usize = 0;
    let mut full: bool = false;
    let mut i: usize = 0;
    assert(all.take(0) =~= Seq::<Mapped>::empty());
    while i < plans.len()
        invariant
            i <= plans@.len(),
            all == views(plans@),
            !full ==> n == note_count(all.take(i as int)),
            full ==> n == usize::MAX && note_count(all.take(i as int)) > usize::MAX,
        decreases plans@.len() - i,
    {
        proof {
            assert(all.take(i + 1).drop_last() =~= all.take(i as int));
            assert(all.take(i + 1).last() == plans@[i as int]@);
            assert(views(plans@[i as int].plan.files@).len() == plans@[i as int].plan.files@.len());
        }
        let more: usize = plans[i].plan.files.len();
        if !full && more <= usize::MAX - n {
            n = n + more;
        } else {
            full = true;
            n = usize::MAX;
        }
        i = i + 1;
    }
    assert(all.take(all.len() as int) =~= all);
    n
}

/// A label in quotes.
pub open spec fn quoted_label(label: Seq<char>) -> Seq<char> {
    seq!['"'] + label + seq!['"']
}

/// Why a poll holds: the labels that were not found.
pub open spec fn hold_text(labels: Seq<Seq<char>>) -> Option<Seq<char>> {
    if labels.len() == 0 {
        None
    } else if labels.len() == 1 {
        Some("label "@ + quoted_label(labels[0]) + " not found in Gmail"@)
    } else {
        Some(
            "labels "@ + crate::lines::join(
                labels.map_values(|l: Seq<char>| quoted_label(l)),
                ", "@,
            ) + " not found in Gmail"@,
        )
    }
}

/// Why a poll holds: the labels that were not found.
pub fn hold_reason(missing_labels: &[String]) -> (reason: Option<String>)
    ensures
        text_of(reason) == hold_text(strings(missing_labels@)),
{
    if missing_labels.len() == 0 {
        return None;
    }
    let ghost labels = strings(missing_labels@);
    let ghost shown = labels.map_values(|l: Seq<char>| quoted_label(l));
    let mut parts: Vec<Vec<char>> = Vec::new();
    let mut i: usize = 0;
    while i < missing_labels.len()
        invariant
            i <= missing_labels@.len(),
            labels == strings(missing_labels@),
            shown == labels.map_values(|l: Seq<char>| quoted_label(l)),
            texts(parts@) == shown.take(i as int),
        decreases missing_labels@.len() - i,
    {
        let ghost before = parts@;
        let mut part: Vec<char> = Vec::new();
        part.push('"');
        append_str(&mut part, missing_labels[i].as_str());
        part.push('"');
        assert(part@ =~= shown[i as int]);
        parts.push(part);
        assert(texts(parts@) =~= texts(before).push(part@));
        assert(shown.take(i + 1) =~= shown.take(i as int).push(part@));
        i = i + 1;
    }
    assert(shown.take(shown.len() as int) =~= shown);
    let list = crate::lines::joined(&parts, to_chars(", ").as_slice());
    let mut out: Vec<char> = if missing_labels.len() == 1 {
        to_chars("label ")
    } else {
        to_chars("labels ")
    };
    append(&mut out, list.as_slice());
    append_str(&mut out, " not found in Gmail");
    proof {
        if labels.len() == 1 {
            assert(shown[0] == quoted_label(labels[0]));
        }
    }
    Some(from_chars(out.as_slice()))
}

/// The backlog line of a captured thread.
pub open spec fn capture_line(title: Seq<char>, stem: Seq<char>, digest: Seq<char>) -> Seq<char> {
    "- [ ] "@ + title + " [["@ + stem + "]] <!--gmail:"@ + digest + "-->"@
}

/// The backlog line of a captured thread: an open task that links to its note
/// and carries its marker.
pub fn email_capture_line(title: &str, stem: &str, digest: &str) -> (line: String)
    ensures
        line@ == capture_line(title@, stem@, digest@),
{
    let mut out: Vec<char> = to_chars("- [ ] ");
    append_str(&mut out, title);
    append_str(&mut out, " [[");
    append_str(&mut out, stem);
    append_str(&mut out, "]] <!--gmail:");
    append_str(&mut out, digest);
    append_str(&mut out, "-->");
    from_chars(out.as_slice())
}

/// The stem of the file that a plan writes for a digest.
pub open spec fn file_stem(files: Seq<File>, digest: Seq<char>) -> Option<Seq<char>>
    decreases files.len(),
{
    if files.len() == 0 {
        None
    } else if files[0].digest == digest {
        Some(files[0].stem)
    } else {
        file_stem(files.skip(1), digest)
    }
}

fn find_file_stem(files: &Vec<InboxFile>, digest: &str) -> (stem: Option<String>)
    ensures
        text_of(stem) == file_stem(views(files@), digest@),
{
    let ghost all = views(files@);
    let mut i: usize = 0;
    assert(all.skip(0) =~= all);
    while i < files.len()
        invariant
            i <= files@.len(),
            all == views(files@),
            file_stem(all, digest@) == file_stem(all.skip(i as int), digest@),
        decreases files@.len() - i,
    {
        assert(all.skip(i as int)[0] == files@[i as int]@);
        assert(all.skip(i as int).skip(1) =~= all.skip(i + 1));
        if same_str(files[i].digest.as_str(), digest) {
            return Some(files[i].stem.clone());
        }
        i = i + 1;
    }
    None
}

/// The backlog lines that records of a plan need: one for each that the backlog
/// does not carry, linked to the note that the plan writes or, where a crash
/// left it without its line, that the folder holds.
pub open spec fn record_lines(
    records: Seq<Record>,
    files: Seq<File>,
    found: Seq<(Seq<char>, Seq<char>)>,
    markers: Seq<Seq<char>>,
) -> Seq<(Seq<char>, Seq<char>)>
    decreases records.len(),
{
    if records.len() == 0 {
        Seq::empty()
    } else {
        let above = record_lines(records.drop_last(), files, found, markers);
        let r = records.last();
        let stem = match file_stem(files, r.digest) {
            Some(s) => Some(s),
            None => stem_of_digest(found, r.digest),
        };
        if markers.contains(r.digest) || stem is None {
            above
        } else {
            above.push((r.digest, capture_line(r.title, stem->0, r.digest)))
        }
    }
}

/// The digest-and-line pairs that a plan's records need.
fn plan_lines(
    plan: &InboxPlan,
    found: Option<&DirScan>,
    markers: &[String],
    out: &mut Vec<(String, String)>,
)
    ensures
        pairs(final(out)@) == pairs(old(out)@) + record_lines(
            plan@.records,
            plan@.files,
            match found {
                Some(d) => pairs(d.digest_stems@),
                None => Seq::empty(),
            },
            strings(markers@),
        ),
{
    let ghost base = pairs(out@);
    let ghost all = plan@.records;
    let ghost notes = match found {
        Some(d) => pairs(d.digest_stems@),
        None => Seq::empty(),
    };
    let mut i: usize = 0;
    assert(all.take(0) =~= Seq::<Record>::empty());
    assert(pairs(out@) =~= base + record_lines(all.take(0), plan@.files, notes, strings(markers@)));
    while i < plan.newly_imported.len()
        invariant
            i <= plan.newly_imported@.len(),
            all == views(plan.newly_imported@),
            plan@.files == views(plan.files@),
            notes == (match found {
                Some(d) => pairs(d.digest_stems@),
                None => Seq::empty(),
            }),
            pairs(out@) == base + record_lines(
                all.take(i as int),
                plan@.files,
                notes,
                strings(markers@),
            ),
        decreases plan.newly_imported@.len() - i,
    {
        let record = &plan.newly_imported[i];
        let ghost out0 = out@;
        proof {
            assert(all.take(i + 1).drop_last() =~= all.take(i as int));
            assert(all.take(i + 1).last() == record@);
        }
        if !list_holds(markers, record.digest.as_str()) {
            let mut stem = find_file_stem(&plan.files, record.digest.as_str());
            if stem.is_none() {
                if let Some(scan) = found {
                    stem = find_stem(&scan.digest_stems, record.digest.as_str());
                }
            }
            if let Some(stem) = stem {
                let line = email_capture_line(
                    record.title.as_str(),
                    stem.as_str(),
                    record.digest.as_str(),
                );
                out.push((record.digest.clone(), line));
                assert(pairs(out@) =~= pairs(out0).push((record.digest@, line@)));
            }
        }
        assert(pairs(out@) =~= base + record_lines(
            all.take(i + 1),
            plan@.files,
            notes,
            strings(markers@),
        ));
        i = i + 1;
    }
    assert(all.take(all.len() as int) =~= all);
}

/// The folder's digests, per mapping.
pub open spec fn dir_digests(dirs: Seq<DirScan>) -> Seq<Seq<(Seq<char>, Seq<char>)>> {
    dirs.map_values(|d: DirScan| pairs(d.digest_stems@))
}

/// The backlog lines that a poll's plans need: only notes in the email archive
/// get one.
pub open spec fn mail_lines(
    plans: Seq<Mapped>,
    mappings: Seq<Mapping>,
    dirs: Seq<Seq<(Seq<char>, Seq<char>)>>,
    markers: Seq<Seq<char>>,
) -> Seq<(Seq<char>, Seq<char>)>
    decreases plans.len(),
{
    if plans.len() == 0 {
        Seq::empty()
    } else {
        let above = mail_lines(plans.drop_last(), mappings, dirs, markers);
        let last = plans.last();
        if 0 <= last.index < mappings.len() && mappings[last.index].path == "archives/emails"@ {
            above + record_lines(
                last.plan.records,
                last.plan.files,
                if last.index < dirs.len() {
                    dirs[last.index]
                } else {
                    Seq::empty()
                },
                markers,
            )
        } else {
            above
        }
    }
}

/// The backlog lines that a poll's plans need, each with its digest.
pub fn backlog_lines(
    plans: &Vec<MappedPlan>,
    mappings: &[SyncMapping],
    dirs: &[DirScan],
    markers: &[String],
) -> (lines: Vec<(String, String)>)
    ensures
        pairs(lines@) == mail_lines(
            views(plans@),
            views(mappings@),
            dir_digests(dirs@),
            strings(markers@),
        ),
{
    let ghost all = views(plans@);
    let ghost maps = views(mappings@);
    let ghost notes = dir_digests(dirs@);
    let mut out: Vec<(String, String)> = Vec::new();
    let mut i: usize = 0;
    assert(all.take(0) =~= Seq::<Mapped>::empty());
    assert(pairs(out@) =~= Seq::<(Seq<char>, Seq<char>)>::empty());
    while i < plans.len()
        invariant
            i <= plans@.len(),
            all == views(plans@),
            maps == views(mappings@),
            notes == dir_digests(dirs@),
            pairs(out@) == mail_lines(all.take(i as int), maps, notes, strings(markers@)),
        decreases plans@.len() - i,
    {
        proof {
            assert(all.take(i + 1).drop_last() =~= all.take(i as int));
            assert(all.take(i + 1).last() == plans@[i as int]@);
        }
        let index: usize = plans[i].index;
        if index < mappings.len() {
            assert(maps[index as int].path == mappings@[index as int].path@);
            if same_str(mappings[index].path.as_str(), EMAIL_ARCHIVE_DIR) {
                if index < dirs.len() {
                    assert(notes[index as int] == pairs(dirs@[index as int].digest_stems@));
                    plan_lines(&plans[i].plan, Some(&dirs[index]), markers, &mut out);
                } else {
                    plan_lines(&plans[i].plan, None, markers, &mut out);
                }
            }
        }
        i = i + 1;
    }
    assert(all.take(all.len() as int) =~= all);
    out
}

/// The lines that a backlog does not carry yet, each ended.
pub open spec fn pending(
    lines: Seq<(Seq<char>, Seq<char>)>,
    markers: Seq<Seq<char>>,
) -> Seq<char>
    decreases lines.len(),
{
    if lines.len() == 0 {
        Seq::empty()
    } else {
        let above = pending(lines.drop_last(), markers);
        if markers.contains(lines.last().0) {
            above
        } else {
            above + lines.last().1 + seq!['\n']
        }
    }
}

/// The block of lines to add to a backlog's text: those whose marker it does
/// not carry, so that retries and crash repairs never duplicate.
pub fn pending_block(text: &str, lines: &Vec<(String, String)>) -> (block: String)
    ensures
        block@ == pending(pairs(lines@), marker_ids(text@, "<!--gmail:"@)),
{
    let markers = scan_backlog_markers(text);
    let ghost ids = marker_ids(text@, "<!--gmail:"@);
    let ghost all = pairs(lines@);
    let mut out: Vec<char> = Vec::new();
    let mut i: usize = 0;
    assert(all.take(0) =~= Seq::<(Seq<char>, Seq<char>)>::empty());
    while i < lines.len()
        invariant
            i <= lines@.len(),
            all == pairs(lines@),
            ids == marker_ids(text@, "<!--gmail:"@),
            forall|id: Seq<char>| #[trigger] holds(markers@, id) == ids.contains(id),
            out@ == pending(all.take(i as int), ids),
        decreases lines@.len() - i,
    {
        let ghost before = out@;
        proof {
            assert(all.take(i + 1).drop_last() =~= all.take(i as int));
            assert(all.take(i + 1).last() == (lines@[i as int].0@, lines@[i as int].1@));
        }
        if !list_holds(markers.as_slice(), lines[i].0.as_str()) {
            append_str(&mut out, lines[i].1.as_str());
            out.push('\n');
            assert(out@ =~= before + lines@[i as int].1@ + seq!['\n']);
        }
        i = i + 1;
    }
    assert(all.take(all.len() as int) =~= all);
    from_chars(out.as_slice())
}

/// Nothing is added to a backlog that carries every marker.
pub proof fn settled_lines_are_not_added(
    lines: Seq<(Seq<char>, Seq<char>)>,
    markers: Seq<Seq<char>>,
)
    requires
        forall|i: int| 0 <= i < lines.len() ==> markers.contains((#[trigger] lines[i]).0),
    ensures
        pending(lines, markers).len() == 0,
    decreases lines.len(),
{
    if lines.len() > 0 {
        let above = lines.drop_last();
        assert forall|i: int| 0 <= i < above.len() implies markers.contains(
            (#[trigger] above[i]).0,
        ) by {
            assert(above[i] == lines[i]);
        }
        settled_lines_are_not_added(above, markers);
        assert(markers.contains(lines[lines.len() - 1].0));
    }
}

/// The fields of a thread's record.
pub open spec fn record_fields(r: Record, path: Seq<char>, at: Seq<char>) -> Seq<
    (Seq<char>, Seq<char>),
> {
    seq![
        ("digest"@, r.digest),
        ("thread"@, r.external_id),
        ("title"@, r.title),
        ("path"@, path),
        ("at"@, at),
    ]
}

/// The record of a captured thread, as a line of the state file.
pub fn thread_record(record: &ImportRecord, path: &str, at: &str) -> (entry: String)
    ensures
        entry@ == json_object(record_fields(record@, path@, at@)),
        entry@.len() > 0,
        !entry@.contains('\n'),
        !entry@.contains('\r'),
        json_field(entry@, "digest"@) == Some(record.digest@),
{
    let mut fields: Vec<(String, String)> = Vec::new();
    fields.push((own("digest"), record.digest.clone()));
    fields.push((own("thread"), record.external_id.clone()));
    fields.push((own("title"), record.title.clone()));
    fields.push((own("path"), own(path)));
    fields.push((own("at"), own(at)));
    assert(pairs(fields@) =~= record_fields(record@, path@, at@));
    proof {
        reveal_strlit("digest");
        reveal_strlit("thread");
        reveal_strlit("title");
        reveal_strlit("path");
        reveal_strlit("at");
        assert("digest"@[0] == 'd' && "thread"@[0] == 't' && "title"@[0] == 't' && "path"@[0] == 'p'
            && "at"@[0] == 'a');
        assert forall|j: int| 0 < j < fields@.len() implies (#[trigger] fields@[j]).0@
            != fields@[0].0@ by {}
    }
    let entry = to_json_object(fields.as_slice());
    assert(json_field(entry@, fields@[0].0@) == Some(fields@[0].1@));
    entry
}

/// Whether a line of a state file records the digest.
pub open spec fn records_digest(rows: Seq<Seq<char>>, digest: Seq<char>) -> bool {
    exists|i: int| 0 <= i < rows.len() && json_field(#[trigger] rows[i], "digest"@) == Some(digest)
}

/// The digests that a state file records, each once. Lines that cannot be read
/// are passed over.
pub fn imported_digests(contents: &str) -> (digests: Vec<String>)
    ensures
        forall|d: Seq<char>| #[trigger]
            holds(digests@, d) == records_digest(lines(contents@), d),
{
    let rows = split_lines(to_chars(contents).as_slice());
    let ghost all = lines(contents@);
    let mut digests: Vec<String> = Vec::new();
    let mut i: usize = 0;
    while i < rows.len()
        invariant
            i <= rows@.len(),
            all == texts(rows@),
            forall|d: Seq<char>| #[trigger]
                holds(digests@, d) == records_digest(all.take(i as int), d),
        decreases rows@.len() - i,
    {
        let ghost digests0 = digests@;
        let line = from_chars(rows[i].as_slice());
        let found = read_json_field(line.as_str(), "digest");
        assert(all[i as int] == line@);
        if let Some(digest) = &found {
            if !list_holds(digests.as_slice(), digest.as_str()) {
                digests.push(digest.clone());
                assert(strings(digests@) =~= strings(digests0).push(digest@));
            }
        }
        assert forall|d: Seq<char>| #[trigger]
            holds(digests@, d) == records_digest(all.take(i + 1), d) by {
            assert(holds(digests0, d) == records_digest(all.take(i as int), d));
            if let Some(digest) = found {
                crate::words::lemma_push_contains(strings(digests0), digest@, d);
            }
            lemma_records_push(all, i as int, d);
        }
        i = i + 1;
    }
    assert(all.take(all.len() as int) =~= all);
    digests
}

proof fn lemma_records_push(rows: Seq<Seq<char>>, i: int, d: Seq<char>)
    requires
        0 <= i < rows.len(),
    ensures
        records_digest(rows.take(i + 1), d) == (records_digest(rows.take(i), d) || json_field(
            rows[i],
            "digest"@,
        ) == Some(d)),
{
    let a = rows.take(i);
    let b = rows.take(i + 1);
    if records_digest(a, d) {
        let k = choose|k: int|
            0 <= k < a.len() && json_field(#[trigger] a[k], "digest"@) == Some(d);
        assert(b[k] == a[k]);
    }
    if json_field(rows[i], "digest"@) == Some(d) {
        assert(b[i] == rows[i]);
    }
    if records_digest(b, d) {
        let k = choose|k: int|
            0 <= k < b.len() && json_field(#[trigger] b[k], "digest"@) == Some(d);
        if k < i {
            assert(a[k] == b[k]);
        }
    }
}

/// The records of plans, each with its mapping's folder.
pub open spec fn mail_records(
    plans: Seq<Mapped>,
    mappings: Seq<Mapping>,
    at: Seq<char>,
) -> Seq<Seq<char>>
    decreases plans.len(),
{
    if plans.len() == 0 {
        Seq::empty()
    } else {
        let last = plans.last();
        let path = if 0 <= last.index < mappings.len() {
            mappings[last.index].path
        } else {
            Seq::empty()
        };
        mail_records(plans.drop_last(), mappings, at) + last.plan.records.map_values(
            |r: Record| json_object(record_fields(r, path, at)),
        )
    }
}

/// The lines to add to the state file for a poll's plans: one for each thread.
pub fn state_entries(plans: &Vec<MappedPlan>, mappings: &[SyncMapping], captured_at: &str) -> (out:
    Vec<String>)
    ensures
        strings(out@) == mail_records(views(plans@), views(mappings@), captured_at@),
{
    let ghost all = views(plans@);
    let ghost maps = views(mappings@);
    let mut out: Vec<String> = Vec::new();
    let mut i: usize = 0;
    assert(all.take(0) =~= Seq::<Mapped>::empty());
    assert(strings(out@) =~= Seq::<Seq<char>>::empty());
    while i < plans.len()
        invariant
            i <= plans@.len(),
            all == views(plans@),
            maps == views(mappings@),
            strings(out@) == mail_records(all.take(i as int), maps, captured_at@),
        decreases plans@.len() - i,
    {
        let ghost base = strings(out@);
        let plan = &plans[i];
        proof {
            assert(all.take(i + 1).drop_last() =~= all.take(i as int));
            assert(all.take(i + 1).last() == plan@);
            reveal_strlit("");
            assert(""@ =~= Seq::<char>::empty());
        }
        let path: &str = if plan.index < mappings.len() {
            assert(maps[plan.index as int].path == mappings@[plan.index as int].path@);
            mappings[plan.index].path.as_str()
        } else {
            ""
        };
        let ghost records = plan@.plan.records;
        let ghost texts_of = records.map_values(
            |r: Record| json_object(record_fields(r, path@, captured_at@)),
        );
        let mut j: usize = 0;
        while j < plan.plan.newly_imported.len()
            invariant
                j <= plan.plan.newly_imported@.len(),
                records == views(plan.plan.newly_imported@),
                texts_of == records.map_values(
                    |r: Record| json_object(record_fields(r, path@, captured_at@)),
                ),
                strings(out@) == base + texts_of.take(j as int),
            decreases plan.plan.newly_imported@.len() - j,
        {
            let ghost out0 = out@;
            let entry = thread_record(&plan.plan.newly_imported[j], path, captured_at);
            assert(records[j as int] == plan.plan.newly_imported@[j as int]@);
            assert(texts_of[j as int] == entry@);
            out.push(entry);
            assert(strings(out@) =~= strings(out0).push(entry@));
            assert(texts_of.take(j + 1) =~= texts_of.take(j as int).push(entry@));
            j = j + 1;
        }
        assert(texts_of.take(texts_of.len() as int) =~= texts_of);
        i = i + 1;
    }
    assert(all.take(all.len() as int) =~= all);
    out
}

/// Whether a text is empty or ends its last line.
pub open spec fn is_ended(s: Seq<char>) -> bool {
    s.len() == 0 || s.last() == '\n'
}

/// The lines of an ended text and of what follows it.
pub proof fn lemma_lines_append(a: Seq<char>, b: Seq<char>)
    requires
        is_ended(a),
    ensures
        lines(a + b) == lines(a) + lines(b),
    decreases a.len(),
{
    if a.len() == 0 {
        assert(a + b =~= b);
        assert(lines(a) + lines(b) =~= lines(b));
    } else {
        let s = a + b;
        let end = crate::lines::next_char(a, '\n', 0);
        crate::lines::lemma_next_char(a, '\n', 0);
        if end == a.len() {
            assert(a[a.len() - 1] == '\n');
        }
        assert forall|j: int| 0 <= j < end implies s[j] != '\n' by {
            assert(s[j] == a[j]);
        }
        crate::lines::lemma_next_char_is(s, '\n', 0, end);
        let rest = a.skip(end + 1);
        assert(s.take(end) =~= a.take(end));
        assert(s.skip(end + 1) =~= rest + b);
        assert(is_ended(rest)) by {
            if rest.len() > 0 {
                assert(rest.last() == a.last());
            }
        }
        lemma_lines_append(rest, b);
        assert(lines(s) =~= lines(a) + lines(b));
    }
}

/// What is recorded is remembered: the lines of a state file with entries added
/// are those it had, and the entries.
pub proof fn records_are_remembered(contents: Seq<char>, entries: Seq<Seq<char>>)
    requires
        is_ended(contents),
        forall|i: int|
            0 <= i < entries.len() ==> (#[trigger] entries[i]).len() > 0 && !entries[i].contains(
                '\n',
            ) && !entries[i].contains('\r'),
    ensures
        is_ended(with_entries(contents, entries)),
        lines(with_entries(contents, entries)) == lines(contents) + entries,
        forall|i: int, d: Seq<char>|
            0 <= i < entries.len() && json_field(#[trigger] entries[i], "digest"@) == Some(d)
                ==> #[trigger] records_digest(lines(with_entries(contents, entries)), d),
    decreases entries.len(),
{
    if entries.len() == 0 {
        assert(lines(contents) + entries =~= lines(contents));
    } else {
        let above = entries.drop_last();
        let last = entries.last();
        assert forall|i: int| 0 <= i < above.len() implies (#[trigger] above[i]).len() > 0
            && !above[i].contains('\n') && !above[i].contains('\r') by {
            assert(above[i] == entries[i]);
        }
        records_are_remembered(contents, above);
        let before = with_entries(contents, above);
        let row = last + seq!['\n'];
        assert(entries[entries.len() - 1] == last);
        assert forall|j: int| 0 <= j < last.len() implies row[j] != '\n' by {
            assert(last.contains(last[j]));
            assert(row[j] == last[j]);
        }
        crate::lines::lemma_next_char_is(row, '\n', 0, last.len() as int);
        assert(row.take(last.len() as int) =~= last);
        assert(last.contains(last.last()));
        assert(row.skip(last.len() as int + 1) =~= Seq::<char>::empty());
        assert(lines(Seq::<char>::empty()) =~= Seq::<Seq<char>>::empty());
        assert(lines(row) =~= seq![last]);
        lemma_lines_append(before, row);
        assert(with_entries(contents, entries) =~= before + row);
        assert(lines(contents) + above + seq![last] =~= lines(contents) + entries);
    }
    let rows = lines(with_entries(contents, entries));
    assert forall|i: int, d: Seq<char>|
        0 <= i < entries.len() && json_field(#[trigger] entries[i], "digest"@) == Some(
            d,
        ) implies #[trigger] records_digest(rows, d) by {
        assert(rows[lines(contents).len() + i] == entries[i]);
    }
}

/// One step in landing a poll's plans.
#[derive(Debug, Clone, PartialEq)]
pub enum LandingStep {
    /// Write a note, unless there is a file already.
    CreateNote(String, String),
    /// Add the lines that the backlog does not carry yet.
    AddToBacklog(Vec<(String, String)>),
    /// Add lines to the state file.
    Record(Vec<String>),
}

/// What a step does.
pub enum Landing {
    CreateNote(Seq<char>, Seq<char>),
    AddToBacklog(Seq<(Seq<char>, Seq<char>)>),
    Record(Seq<Seq<char>>),
}

impl View for LandingStep {
    type V = Landing;

    open spec fn view(&self) -> Landing {
        match *self {
            LandingStep::CreateNote(p, c) => Landing::CreateNote(p@, c@),
            LandingStep::AddToBacklog(l) => Landing::AddToBacklog(pairs(l@)),
            LandingStep::Record(e) => Landing::Record(strings(e@)),
        }
    }
}

/// The steps that write the notes of plans.
pub open spec fn note_steps(files: Seq<File>) -> Seq<Landing> {
    files.map_values(|f: File| Landing::CreateNote(f.rel_path, f.content))
}

/// The steps that write the notes of all plans.
pub open spec fn all_note_steps(plans: Seq<Mapped>) -> Seq<Landing>
    decreases plans.len(),
{
    if plans.len() == 0 {
        Seq::empty()
    } else {
        all_note_steps(plans.drop_last()) + note_steps(plans.last().plan.files)
    }
}

/// The steps that land a poll's plans: the notes, then the backlog lines, then
/// the state.
pub open spec fn landing(
    plans: Seq<Mapped>,
    lines: Seq<(Seq<char>, Seq<char>)>,
    entries: Seq<Seq<char>>,
) -> Seq<Landing> {
    all_note_steps(plans) + (if lines.len() > 0 {
        seq![Landing::AddToBacklog(lines)]
    } else {
        Seq::empty()
    }) + (if entries.len() > 0 {
        seq![Landing::Record(entries)]
    } else {
        Seq::empty()
    })
}

/// Appends the steps that write files.
pub(crate) fn push_note_steps(steps: &mut Vec<LandingStep>, files: &Vec<InboxFile>)
    ensures
        views(final(steps)@) == views(old(steps)@) + note_steps(views(files@)),
{
    let ghost base = views(steps@);
    let ghost all = note_steps(views(files@));
    let mut i: usize = 0;
    while i < files.len()
        invariant
            i <= files@.len(),
            all == note_steps(views(files@)),
            views(steps@) == base + all.take(i as int),
        decreases files@.len() - i,
    {
        let ghost steps0 = steps@;
        let step = LandingStep::CreateNote(files[i].rel_path.clone(), files[i].content.clone());
        assert(views(files@)[i as int] == files@[i as int]@);
        assert(all[i as int] == step@);
        steps.push(step);
        assert(views(steps@) =~= views(steps0).push(step@));
        assert(all.take(i + 1) =~= all.take(i as int).push(step@));
        i = i + 1;
    }
    assert(all.take(all.len() as int) =~= all);
}

/// The steps that land a poll's plans, in crash-safe order. A crash between any
/// two leaves a vault whose notes repair the state on the next poll.
pub fn landing_steps(
    plans: &Vec<MappedPlan>,
    mappings: &[SyncMapping],
    dirs: &[DirScan],
    markers: &[String],
    captured_at: &str,
) -> (steps: Vec<LandingStep>)
    ensures
        views(steps@) == landing(
            views(plans@),
            mail_lines(
                views(plans@),
                views(mappings@),
                dir_digests(dirs@),
                strings(markers@),
            ),
            mail_records(views(plans@), views(mappings@), captured_at@),
        ),
{
    let ghost all = views(plans@);
    let mut steps: Vec<LandingStep> = Vec::new();
    let mut i: usize = 0;
    assert(all.take(0) =~= Seq::<Mapped>::empty());
    assert(views(steps@) =~= Seq::<Landing>::empty());
    while i < plans.len()
        invariant
            i <= plans@.len(),
            all == views(plans@),
            views(steps@) == all_note_steps(all.take(i as int)),
        decreases plans@.len() - i,
    {
        proof {
            assert(all.take(i + 1).drop_last() =~= all.take(i as int));
            assert(all.take(i + 1).last() == plans@[i as int]@);
        }
        push_note_steps(&mut steps, &plans[i].plan.files);
        i = i + 1;
    }
    assert(all.take(all.len() as int) =~= all);
    let ghost notes = views(steps@);
    let lines_to_add = backlog_lines(plans, mappings, dirs, markers);
    let entries = state_entries(plans, mappings, captured_at);
    let ghost line_view = pairs(lines_to_add@);
    let ghost entry_view = strings(entries@);
    if lines_to_add.len() > 0 {
        let ghost steps0 = steps@;
        steps.push(LandingStep::AddToBacklog(lines_to_add));
        assert(views(steps@) =~= views(steps0).push(Landing::AddToBacklog(line_view)));
    }
    if entries.len() > 0 {
        let ghost steps0 = steps@;
        steps.push(LandingStep::Record(entries));
        assert(views(steps@) =~= views(steps0).push(Landing::Record(entry_view)));
    }
    assert(views(steps@) =~= landing(all, line_view, entry_view));
    steps
}

/// What a poll does once its threads are fetched: the steps that land them, why
/// it holds, and the number of notes it captures.
pub struct MailPoll {
    pub steps: Vec<LandingStep>,
    pub holding: Option<String>,
    pub captured: usize,
}

/// Plans a poll from what was fetched and what the vault records. `imported` is
/// the loaded state, `digests` what the vault records, and `markers` the
/// backlog's markers.
pub fn plan_poll(
    config: &GmailConfig,
    fetched: &GmailFetched,
    dirs: &[DirScan],
    imported: &[String],
    digests: &[String],
    markers: &[String],
    captured_at: &str,
) -> (poll: MailPoll)
    ensures
        ({
            let account = match config.account {
                Some(a) => a@,
                None => Seq::empty(),
            };
            let answers = fetched_items(fetched.mappings@);
            let maps = views(config.mappings@);
            let plans = mail_plans(
                maps,
                answers,
                dir_stems(dirs@),
                account,
                strings(imported@),
                strings(digests@),
                captured_at@,
                answers.len(),
            );
            &&& views(poll.steps@) == landing(
                plans,
                mail_lines(plans, maps, dir_digests(dirs@), strings(markers@)),
                mail_records(plans, maps, captured_at@),
            )
            &&& text_of(poll.holding) == hold_text(missing_labels(maps, answers, answers.len()))
            &&& poll.captured == note_count(plans) || (poll.captured == usize::MAX && note_count(
                plans,
            ) > usize::MAX)
        }),
{
    let nobody = String::new();
    let account: &str = match &config.account {
        Some(a) => a.as_str(),
        None => nobody.as_str(),
    };
    proof {
        assert(nobody@ =~= Seq::<char>::empty());
        assert(fetched_items(fetched.mappings@).len() == fetched.mappings@.len());
    }
    let (plans, missing) = plan_mappings(
        config.mappings.as_slice(),
        fetched.mappings.as_slice(),
        dirs,
        account,
        imported,
        digests,
        captured_at,
    );
    let steps = landing_steps(&plans, config.mappings.as_slice(), dirs, markers, captured_at);
    let holding = hold_reason(missing.as_slice());
    let captured: usize = count_notes(&plans);
    MailPoll { steps, holding, captured }
}

/// The digests that were imported, by the states of the mail and of the inbox:
/// an item captured by either is not captured again. A state that cannot be
/// read has none.
pub fn imported_state(mail: Option<&str>, inbox: Option<&str>) -> (digests: Vec<String>)
    ensures
        forall|d: Seq<char>| #[trigger]
            holds(digests@, d) == ((mail is Some && records_digest(lines(mail->0@), d)) || (
            inbox is Some && records_digest(lines(inbox->0@), d))),
{
    let mut digests: Vec<String> = match mail {
        Some(contents) => imported_digests(contents),
        None => Vec::new(),
    };
    let ghost first = digests@;
    assert(forall|d: Seq<char>| #[trigger]
        holds(first, d) == (mail is Some && records_digest(lines(mail->0@), d)));
    if let Some(contents) = inbox {
        let more = imported_digests(contents);
        add_texts(&mut digests, more.as_slice());
    }
    digests
}

/// What the last try to put lines into an open backlog comes to: it is done, it
/// is given up with a message, or it goes on.
pub fn backlog_outcome(tries: usize, applied: bool) -> (ended: Option<Result<(), &'static str>>)
    ensures
        match ended {
            None => !applied && tries < 3,
            Some(Ok(_)) => applied,
            Some(Err(message)) => !applied && tries >= 3 && message@
                == "the buffer kept changing while applying captured emails"@,
        },
{
    match after_apply(tries, applied) {
        BufferStep::Done => Some(Ok(())),
        BufferStep::GiveUp => Some(
            Err("the buffer kept changing while applying captured emails"),
        ),
        _ => None,
    }
}

/// A record has its line among those of its plan.
proof fn lemma_record_line(
    records: Seq<Record>,
    files: Seq<File>,
    found: Seq<(Seq<char>, Seq<char>)>,
    markers: Seq<Seq<char>>,
    i: int,
)
    requires
        0 <= i < records.len(),
        !markers.contains(records[i].digest),
        file_stem(files, records[i].digest) is Some || stem_of_digest(
            found,
            records[i].digest,
        ) is Some,
    ensures
        ({
            let r = records[i];
            let stem = match file_stem(files, r.digest) {
                Some(s) => s,
                None => stem_of_digest(found, r.digest)->0,
            };
            record_lines(records, files, found, markers).contains(
                (r.digest, capture_line(r.title, stem, r.digest)),
            )
        }),
    decreases records.len(),
{
    let r = records[i];
    let stem = match file_stem(files, r.digest) {
        Some(s) => s,
        None => stem_of_digest(found, r.digest)->0,
    };
    let want = (r.digest, capture_line(r.title, stem, r.digest));
    let out = record_lines(records, files, found, markers);
    let above = record_lines(records.drop_last(), files, found, markers);
    if i == records.len() - 1 {
        assert(out == above.push(want));
        assert(out[out.len() - 1] == want);
    } else {
        assert(records.drop_last()[i] == records[i]);
        lemma_record_line(records.drop_last(), files, found, markers, i);
        let k = choose|k: int| 0 <= k < above.len() && above[k] == want;
        assert(out[k] == want);
    }
}

/// No archived mail goes without its line: what a poll records for the email
/// archive, and the backlog does not carry yet, gets a line that links to its
/// note, be it one that the poll writes or one that an earlier poll left
/// without a line.
pub proof fn archived_mail_gets_its_line(
    plans: Seq<Mapped>,
    mappings: Seq<Mapping>,
    dirs: Seq<Seq<(Seq<char>, Seq<char>)>>,
    markers: Seq<Seq<char>>,
    p: int,
    i: int,
)
    requires
        0 <= p < plans.len(),
        0 <= plans[p].index < mappings.len(),
        mappings[plans[p].index].path == "archives/emails"@,
        0 <= i < plans[p].plan.records.len(),
        !markers.contains(plans[p].plan.records[i].digest),
        file_stem(plans[p].plan.files, plans[p].plan.records[i].digest) is Some || (plans[p].index
            < dirs.len() && stem_of_digest(
            dirs[plans[p].index],
            plans[p].plan.records[i].digest,
        ) is Some),
    ensures
        ({
            let r = plans[p].plan.records[i];
            let stem = match file_stem(plans[p].plan.files, r.digest) {
                Some(s) => s,
                None => stem_of_digest(dirs[plans[p].index], r.digest)->0,
            };
            mail_lines(plans, mappings, dirs, markers).contains(
                (r.digest, capture_line(r.title, stem, r.digest)),
            )
        }),
    decreases plans.len(),
{
    let r = plans[p].plan.records[i];
    let stem = match file_stem(plans[p].plan.files, r.digest) {
        Some(s) => s,
        None => stem_of_digest(dirs[plans[p].index], r.digest)->0,
    };
    let want = (r.digest, capture_line(r.title, stem, r.digest));
    let out = mail_lines(plans, mappings, dirs, markers);
    let above = mail_lines(plans.drop_last(), mappings, dirs, markers);
    if p == plans.len() - 1 {
        let found = if plans[p].index < dirs.len() {
            dirs[plans[p].index]
        } else {
            Seq::empty()
        };
        lemma_record_line(plans[p].plan.records, plans[p].plan.files, found, markers, i);
        let own_lines = record_lines(plans[p].plan.records, plans[p].plan.files, found, markers);
        let k = choose|k: int| 0 <= k < own_lines.len() && own_lines[k] == want;
        assert(out == above + own_lines);
        assert(out[above.len() + k] == want);
    } else {
        assert(plans.drop_last()[p] == plans[p]);
        archived_mail_gets_its_line(plans.drop_last(), mappings, dirs, markers, p, i);
        let k = choose|k: int| 0 <= k < above.len() && above[k] == want;
        assert(out[k] == want);
    }
}

} // verus!
