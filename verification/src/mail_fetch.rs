//! A poll of the mapped labels, request by request: what to ask next, and what
//! the answers make. A label that was not found holds its own mapping alone.

use vstd::prelude::*;
use crate::gmail::MappingFetched;
use crate::gmail_google::{
    captured_item, claim_threads, claims, complete_resolution, is_skipped, mail_item,
    new_threads_are_claimed, thread_ids, thread_letters, GmailThread, Letter, MessageRef,
};
use crate::gmail_service::fetched_items;
use crate::inbox::{CapturedItem, Item};
use crate::lines::strings;
use crate::moments::Moment;
use crate::sort::{sorted, views};
use crate::words::holds;

verus! {

/// The next request of a poll.
#[derive(Debug, Clone, PartialEq)]
pub enum FetchAction {
    /// List the messages under a label.
    List(String),
    /// Read a thread.
    Thread(String),
    Done,
}

/// What a request asks for.
pub enum Wanted {
    List(Seq<char>),
    Thread(Seq<char>),
    Done,
}

impl View for FetchAction {
    type V = Wanted;

    open spec fn view(&self) -> Wanted {
        match *self {
            FetchAction::List(label) => Wanted::List(label@),
            FetchAction::Thread(id) => Wanted::Thread(id@),
            FetchAction::Done => Wanted::Done,
        }
    }
}

/// A poll on its way.
pub struct MailFetch {
    /// The label of each mapping, where it was found.
    pub labels: Vec<Option<String>>,
    /// What the mappings before the current one fetched.
    pub done: Vec<MappingFetched>,
    /// Whether the current mapping's messages are listed.
    pub listed: bool,
    /// The current mapping's threads that are still to be read.
    pub pending: Vec<String>,
    pub items: Vec<CapturedItem>,
    /// The threads that some mapping has listed.
    pub seen: Vec<String>,
}

/// Where a poll stands.
pub struct Fetching {
    pub labels: Seq<Option<Seq<char>>>,
    pub done: Seq<Option<Seq<Item>>>,
    pub listed: bool,
    pub pending: Seq<Seq<char>>,
    pub items: Seq<Item>,
    pub seen: Seq<Seq<char>>,
}

/// What labels are.
pub open spec fn label_views(labels: Seq<Option<String>>) -> Seq<Option<Seq<char>>> {
    labels.map_values(|l: Option<String>| crate::inbox::text_of(l))
}

impl View for MailFetch {
    type V = Fetching;

    open spec fn view(&self) -> Fetching {
        Fetching {
            labels: label_views(self.labels@),
            done: fetched_items(self.done@),
            listed: self.listed,
            pending: strings(self.pending@),
            items: views(self.items@),
            seen: strings(self.seen@),
        }
    }
}

/// A poll with every mapping settled that needs no further request: one whose
/// label was not found, and one whose threads are all read.
pub open spec fn settled(f: Fetching) -> Fetching
    decreases f.labels.len() - f.done.len(),
{
    if f.done.len() >= f.labels.len() {
        f
    } else if f.listed {
        if f.pending.len() == 0 {
            settled(
                Fetching {
                    done: f.done.push(Some(f.items)),
                    listed: false,
                    items: Seq::empty(),
                    ..f
                },
            )
        } else {
            f
        }
    } else if f.labels[f.done.len() as int] is None {
        settled(Fetching { done: f.done.push(None), ..f })
    } else {
        f
    }
}

/// The next request of a settled poll.
pub open spec fn wanted(f: Fetching) -> Wanted {
    if f.done.len() >= f.labels.len() {
        Wanted::Done
    } else if f.listed {
        Wanted::Thread(f.pending[0])
    } else {
        Wanted::List(f.labels[f.done.len() as int]->0)
    }
}

/// The threads that items were made of.
pub open spec fn item_ids(items: Seq<Item>) -> Seq<Seq<char>> {
    items.map_values(|i: Item| i.external_id)
}

/// The threads that mappings fetched.
pub open spec fn done_ids(done: Seq<Option<Seq<Item>>>) -> Seq<Seq<char>>
    decreases done.len(),
{
    if done.len() == 0 {
        Seq::empty()
    } else {
        done_ids(done.drop_last()) + (match done.last() {
            Some(items) => item_ids(items),
            None => Seq::empty(),
        })
    }
}

/// The threads that a poll has claimed: those that are fetched, and those still
/// to be read.
pub open spec fn claimed(f: Fetching) -> Seq<Seq<char>> {
    done_ids(f.done) + item_ids(f.items) + f.pending
}

/// Whether no thread was claimed twice: each was listed, and stands once among
/// the claimed ones.
pub open spec fn claims_once(f: Fetching) -> bool {
    &&& claimed(f).no_duplicates()
    &&& forall|id: Seq<char>| #[trigger] claimed(f).contains(id) ==> f.seen.contains(id)
}

/// Whether every thread that was listed, and not captured before, is claimed,
/// and no other.
pub open spec fn claims_all(f: Fetching, account: Seq<char>, skip: Seq<Seq<char>>) -> bool {
    forall|id: Seq<char>| #[trigger]
        claimed(f).contains(id) == (f.seen.contains(id) && !is_skipped(id, account, skip))
}

/// Settling claims nothing, and lets go of nothing.
proof fn lemma_settled_claims(f: Fetching)
    ensures
        claimed(settled(f)) == claimed(f),
        settled(f).seen == f.seen,
    decreases f.labels.len() - f.done.len(),
{
    if f.done.len() < f.labels.len() {
        if f.listed {
            if f.pending.len() == 0 {
                let g = Fetching {
                    done: f.done.push(Some(f.items)),
                    listed: false,
                    items: Seq::empty(),
                    ..f
                };
                lemma_settled_claims(g);
                assert(g.done.drop_last() =~= f.done);
                assert(claimed(g) =~= claimed(f));
            }
        } else if f.labels[f.done.len() as int] is None {
            let g = Fetching { done: f.done.push(None), ..f };
            lemma_settled_claims(g);
            assert(g.done.drop_last() =~= f.done);
            assert(claimed(g) =~= claimed(f));
        }
    }
}

/// What holds of the claimed threads once a list is taken in.
proof fn lemma_list_claims(
    before: Fetching,
    after: Fetching,
    ids: Seq<Seq<char>>,
    account: Seq<char>,
    skip: Seq<Seq<char>>,
)
    requires
        after.pending == claims(ids, account, skip, before.seen),
        after.done == before.done,
        after.items == before.items,
        forall|id: Seq<char>| #[trigger]
            after.seen.contains(id) == (before.seen.contains(id) || ids.contains(id)),
    ensures
        claims_once(before) ==> claims_once(after),
        before.pending.len() == 0 && claims_all(before, account, skip) ==> claims_all(
            after,
            account,
            skip,
        ),
{
    let kept = done_ids(before.done) + item_ids(before.items);
    let old_all = claimed(before);
    let new_all = claimed(after);
    new_threads_are_claimed(ids, account, skip, before.seen);
    assert(old_all =~= kept + before.pending);
    assert(new_all =~= kept + after.pending);
    assert forall|id: Seq<char>| kept.contains(id) implies #[trigger] old_all.contains(id) by {
        let k = choose|k: int| 0 <= k < kept.len() && kept[k] == id;
        assert(old_all[k] == id);
    }
    assert forall|id: Seq<char>| #[trigger]
        new_all.contains(id) == (kept.contains(id) || after.pending.contains(id)) by {
        lemma_joined_contains(kept, after.pending, id);
    }
    if claims_once(before) {
        assert forall|i: int, j: int|
            0 <= i < j < new_all.len() implies new_all[i] != new_all[j] by {
            if j < kept.len() {
                assert(old_all[i] == new_all[i] && old_all[j] == new_all[j]);
            } else if i >= kept.len() {
                assert(after.pending[i - kept.len()] == new_all[i]);
                assert(after.pending[j - kept.len()] == new_all[j]);
            } else {
                assert(old_all[i] == new_all[i]);
                assert(old_all.contains(new_all[i]));
                assert(after.pending[j - kept.len()] == new_all[j]);
                assert(after.pending.contains(new_all[j]));
            }
        }
        assert forall|id: Seq<char>| #[trigger] new_all.contains(id) implies after.seen.contains(
            id,
        ) by {
            if kept.contains(id) {
                assert(old_all.contains(id));
            }
        }
    }
    if before.pending.len() == 0 && claims_all(before, account, skip) {
        assert(old_all =~= kept);
        assert forall|id: Seq<char>| #[trigger]
            new_all.contains(id) == (after.seen.contains(id) && !is_skipped(id, account, skip)) by {
            assert(old_all.contains(id) == (before.seen.contains(id) && !is_skipped(
                id,
                account,
                skip,
            )));
        }
    }
}

proof fn lemma_joined_contains(a: Seq<Seq<char>>, b: Seq<Seq<char>>, id: Seq<char>)
    ensures
        (a + b).contains(id) == (a.contains(id) || b.contains(id)),
{
    let all = a + b;
    if a.contains(id) {
        let k = choose|k: int| 0 <= k < a.len() && a[k] == id;
        assert(all[k] == id);
    }
    if b.contains(id) {
        let k = choose|k: int| 0 <= k < b.len() && b[k] == id;
        assert(all[a.len() + k] == id);
    }
    if all.contains(id) {
        let k = choose|k: int| 0 <= k < all.len() && all[k] == id;
        if k < a.len() {
            assert(a[k] == id);
        } else {
            assert(b[k - a.len()] == id);
        }
    }
}

impl MailFetch {
    /// A poll of labels, each with the id it resolved to.
    pub fn new(labels: Vec<Option<String>>) -> (fetch: Self)
        ensures
            claims_once(fetch@),
            forall|account: Seq<char>, skip: Seq<Seq<char>>| #[trigger]
                claims_all(fetch@, account, skip),
            fetch@ == (Fetching {
                labels: label_views(labels@),
                done: Seq::empty(),
                listed: false,
                pending: Seq::empty(),
                items: Seq::empty(),
                seen: Seq::empty(),
            }),
    {
        let fetch = MailFetch {
            labels,
            done: Vec::new(),
            listed: false,
            pending: Vec::new(),
            items: Vec::new(),
            seen: Vec::new(),
        };
        assert(fetch@.done =~= Seq::<Option<Seq<Item>>>::empty());
        assert(fetch@.pending =~= Seq::<Seq<char>>::empty());
        assert(fetch@.items =~= Seq::<Item>::empty());
        assert(fetch@.seen =~= Seq::<Seq<char>>::empty());
        assert(claimed(fetch@) =~= Seq::<Seq<char>>::empty());
        fetch
    }

    /// Settles what can be settled, and says what to ask next.
    pub fn next(&mut self) -> (action: FetchAction)
        ensures
            final(self)@ == settled(old(self)@),
            action@ == wanted(settled(old(self)@)),
            claims_once(old(self)@) ==> claims_once(final(self)@),
            forall|account: Seq<char>, skip: Seq<Seq<char>>|
                claims_all(old(self)@, account, skip) ==> #[trigger] claims_all(
                    final(self)@,
                    account,
                    skip,
                ),
    {
        proof {
            lemma_settled_claims(old(self)@);
        }
        while self.done.len() < self.labels.len()
            invariant
                settled(self@) == settled(old(self)@),
                claimed(settled(old(self)@)) == claimed(old(self)@),
                settled(old(self)@).seen == old(self)@.seen,
            ensures
                self@.done.len() >= self@.labels.len(),
                settled(self@) == settled(old(self)@),
            decreases self.labels@.len() - self.done@.len(),
        {
            let ghost before = *self;
            assert(self@.done.len() == self.done@.len() && self@.labels.len()
                == self.labels@.len());
            if self.listed {
                if self.pending.len() > 0 {
                    assert(self@.pending[0] == self.pending@[0]@);
                    return FetchAction::Thread(self.pending[0].clone());
                }
                let mut items: Vec<CapturedItem> = Vec::new();
                std::mem::swap(&mut items, &mut self.items);
                self.done.push(MappingFetched::Items(items));
                self.listed = false;
                assert(self@.done =~= before@.done.push(Some(before@.items)));
                assert(self@.items =~= Seq::<Item>::empty());
            } else {
                let at: usize = self.done.len();
                assert(self@.labels[at as int] == crate::inbox::text_of(self.labels@[at as int]));
                match &self.labels[at] {
                    Some(label) => {
                        return FetchAction::List(label.clone());
                    },
                    None => {
                        self.done.push(MappingFetched::LabelNotFound);
                        assert(self@.done =~= before@.done.push(None));
                    },
                }
            }
        }
        FetchAction::Done
    }

    /// Takes in the messages under the current label: its threads are claimed,
    /// but for those that an earlier mapping listed or that are captured.
    pub fn take_list(&mut self, refs: &[MessageRef], account: &str, skip: &[String])
        ensures
            final(self)@.listed,
            final(self)@.pending == claims(
                thread_ids(refs@),
                account@,
                strings(skip@),
                old(self)@.seen,
            ),
            forall|id: Seq<char>| #[trigger]
                final(self)@.seen.contains(id) == (old(self)@.seen.contains(id) || thread_ids(
                    refs@,
                ).contains(id)),
            final(self)@ == (Fetching {
                listed: true,
                pending: final(self)@.pending,
                seen: final(self)@.seen,
                ..old(self)@
            }),
            claims_once(old(self)@) ==> claims_once(final(self)@),
            old(self)@.pending.len() == 0 && claims_all(old(self)@, account@, strings(skip@))
                ==> claims_all(final(self)@, account@, strings(skip@)),
    {
        let claimed = claim_threads(refs, account, skip, &mut self.seen);
        self.pending = claimed;
        self.listed = true;
        assert forall|id: Seq<char>| #[trigger] self@.seen.contains(id) == (old(self)@.seen.contains(id) || thread_ids(refs@).contains(id)) by {
            assert(holds(self.seen@, id) == (holds(old(self).seen@, id) || thread_ids(
                refs@,
            ).contains(id)));
        }
        proof {
            lemma_list_claims(old(self)@, self@, thread_ids(refs@), account@, strings(skip@));
        }
    }

    /// Takes in the thread that was asked for, and makes its item.
    pub fn take_thread(
        &mut self,
        thread: &GmailThread,
        account: &str,
        offsets: &[i32],
        now: Moment,
    )
        requires
            old(self).pending@.len() > 0,
            offsets@.len() == thread.messages@.len(),
        ensures
            final(self)@ == (Fetching {
                pending: old(self)@.pending.skip(1),
                items: old(self)@.items.push(
                    mail_item(
                        sorted::<Letter>(thread_letters(thread.messages@, offsets@)),
                        account@,
                        old(self)@.pending[0],
                        now,
                    ),
                ),
                ..old(self)@
            }),
            claimed(final(self)@) == claimed(old(self)@),
    {
        let ghost before = *self;
        assert(self@.pending[0] == self.pending@[0]@);
        let id = self.pending.remove(0);
        assert(self@.pending =~= before@.pending.skip(1));
        let item = captured_item(thread, account, id.as_str(), offsets, now);
        self.items.push(item);
        assert(self@.items =~= before@.items.push(item@));
        assert(item_ids(self@.items) =~= item_ids(before@.items).push(before@.pending[0]));
        assert(claimed(self@) =~= claimed(before@));
    }

    /// What the poll fetched, mapping by mapping. No thread is in it twice, and
    /// of a poll that is done, every thread that some mapping listed and that
    /// was not captured before is in it, and no other.
    pub fn finish(self) -> (mappings: Vec<MappingFetched>)
        ensures
            fetched_items(mappings@) == self@.done,
            claims_once(self@) ==> done_ids(fetched_items(mappings@)).no_duplicates(),
            forall|account: Seq<char>, skip: Seq<Seq<char>>, id: Seq<char>|
                self@.items.len() == 0 && self@.pending.len() == 0 && #[trigger] claims_all(
                    self@,
                    account,
                    skip,
                ) ==> #[trigger] done_ids(fetched_items(mappings@)).contains(id) == (
                self@.seen.contains(id) && !is_skipped(id, account, skip)),
    {
        proof {
            let ids = done_ids(self@.done);
            let all = claimed(self@);
            if claims_once(self@) {
                assert forall|i: int, j: int| 0 <= i < j < ids.len() implies ids[i] != ids[j] by {
                    assert(all[i] == ids[i] && all[j] == ids[j]);
                }
            }
            if self@.items.len() == 0 && self@.pending.len() == 0 {
                assert(all =~= ids);
            }
        }
        self.done
    }
}

/// The messages under a label, page by page.
pub struct MessageList {
    pub messages: Vec<MessageRef>,
    /// The page to ask for next; the first where there is none.
    pub page: Option<String>,
}

impl MessageList {
    /// A list of which nothing is read.
    pub fn new() -> (list: Self)
        ensures
            list.messages@.len() == 0,
            list.page is None,
    {
        MessageList { messages: Vec::new(), page: None }
    }

    /// Takes in a page. The result is whether there is another.
    pub fn take_page(&mut self, messages: Vec<MessageRef>, next: Option<String>) -> (more: bool)
        ensures
            final(self).messages@ == old(self).messages@ + messages@,
            final(self).page == next,
            more == (next is Some),
    {
        let mut messages = messages;
        self.messages.append(&mut messages);
        let more: bool = next.is_some();
        self.page = next;
        more
    }
}

/// Whether some label was not found.
pub open spec fn some_missing(ids: Seq<Option<String>>) -> bool {
    exists|i: int| 0 <= i < ids.len() && #[trigger] ids[i] is None
}

/// Whether every label was found, with the given ids.
pub open spec fn all_found(ids: Seq<Option<String>>, kept: Seq<String>) -> bool {
    kept.len() == ids.len() && forall|i: int|
        0 <= i < ids.len() ==> #[trigger] crate::inbox::text_of(ids[i]) == Some(kept[i]@)
}

/// The ids that the mapped labels resolved to, kept between polls.
pub struct LabelCache {
    pub ids: Option<Vec<String>>,
}

impl LabelCache {
    /// A cache of nothing.
    pub fn new() -> (cache: Self)
        ensures
            cache.ids is None,
    {
        LabelCache { ids: None }
    }

    /// The ids that are kept; `None` where the labels are to be resolved.
    pub fn known(&self) -> (ids: Option<Vec<Option<String>>>)
        ensures
            match (ids, self.ids) {
                (Some(found), Some(kept)) => label_views(found@) == strings(kept@).map_values(
                    |id: Seq<char>| Some(id),
                ),
                (None, None) => true,
                _ => false,
            },
    {
        match &self.ids {
            Some(kept) => {
                let mut found: Vec<Option<String>> = Vec::new();
                let mut i: usize = 0;
                while i < kept.len()
                    invariant
                        i <= kept@.len(),
                        found@.len() == i,
                        forall|j: int|
                            0 <= j < i ==> crate::inbox::text_of(#[trigger] found@[j]) == Some(
                                kept@[j]@,
                            ),
                    decreases kept@.len() - i,
                {
                    found.push(Some(kept[i].clone()));
                    i = i + 1;
                }
                assert(label_views(found@) =~= strings(kept@).map_values(
                    |id: Seq<char>| Some(id),
                ));
                Some(found)
            },
            None => None,
        }
    }

    /// Takes in what the labels resolved to: it is kept where every label was
    /// found, and else what was kept stays.
    pub fn resolved(&mut self, ids: &[Option<String>])
        ensures
            !some_missing(ids@) ==> final(self).ids is Some && all_found(
                ids@,
                final(self).ids->0@,
            ),
            some_missing(ids@) ==> final(self).ids == old(self).ids,
    {
        match complete_resolution(ids) {
            Some(kept) => {
                assert forall|i: int| 0 <= i < ids@.len() implies !(#[trigger] ids@[i] is None) by {
                    assert(crate::inbox::text_of(ids@[i]) == Some(kept@[i]@));
                }
                self.ids = Some(kept);
            },
            None => {},
        }
    }

    /// A list failed: a label may have been deleted, so the labels are resolved
    /// anew by the next poll.
    pub fn list_failed(&mut self)
        ensures
            final(self).ids is None,
    {
        self.ids = None;
    }
}

/// Settling asks for nothing that is known: a settled poll is settled, and its
/// next request is for a label that was found or a thread that is not read.
pub proof fn settling_is_idempotent(f: Fetching)
    ensures
        settled(settled(f)) == settled(f),
        settled(f).labels == f.labels,
        f.done.len() <= settled(f).done.len(),
        forall|k: int| 0 <= k < f.done.len() ==> #[trigger] settled(f).done[k] == f.done[k],
        settled(f).done.len() < f.labels.len() ==> (if settled(f).listed {
            settled(f).pending.len() > 0
        } else {
            f.labels[settled(f).done.len() as int] is Some
        }),
    decreases f.labels.len() - f.done.len(),
{
    if f.done.len() < f.labels.len() {
        if f.listed {
            if f.pending.len() == 0 {
                let g = Fetching {
                    done: f.done.push(Some(f.items)),
                    listed: false,
                    items: Seq::empty(),
                    ..f
                };
                settling_is_idempotent(g);
                assert forall|k: int| 0 <= k < f.done.len() implies #[trigger] settled(f).done[k]
                    == f.done[k] by {
                    assert(settled(g).done[k] == g.done[k]);
                }
            }
        } else if f.labels[f.done.len() as int] is None {
            let g = Fetching { done: f.done.push(None), ..f };
            settling_is_idempotent(g);
            assert forall|k: int| 0 <= k < f.done.len() implies #[trigger] settled(f).done[k]
                == f.done[k] by {
                assert(settled(g).done[k] == g.done[k]);
            }
        }
    }
}

} // verus!
