//! What holds of a chat: steps between two messages stand together, an activity
//! is named for what it did, and what may be sent is sent.

use vstd::prelude::*;
use crate::chat_panel::{
    after_fetch, choice_of, entitlement_of, low_warning, mode_of, sending, streaming_prose,
    ChatSession, ConnectionMode, Entitlement, Fetched, PlusConnection, Sending, OUT_OF_ALLOWANCE,
    STILL_WORKING, TOO_LONG,
};
use crate::format::decimal;
use crate::inbox::text_of;
use crate::path_laws::{ends_in_a_name, paths_are_shown_inside_their_folder};
use crate::paths::file_name;
use crate::text::{begins, ends, has, lemma_has_between, trim};
use crate::transcript::{
    all_of, any_work, closed_items, detail_of, first_path, is_live, items_of, lemma_position, means,
    moved, notes, open_run, opened_path, path_label, places_in, position_of, summary, verb_of,
    with_run, work_of, CallStatus, Item, Key, Motion, Shape, ThreadEntry, ToolCall, ToolKind, Work,
};

verus! {

/// Whether no message stands between two places.
pub open spec fn nothing_shown_between(shapes: Seq<Shape>, i: int, j: int) -> bool {
    forall|k: int| i < k < j ==> !((#[trigger] shapes[k]) is Visible)
}

/// Whether two steps stand in one row.
pub open spec fn together(items: Seq<Item>, i: int, j: int) -> bool {
    exists|p: int|
        0 <= p < items.len() && places_in(#[trigger] items[p]).contains(i) && places_in(
            items[p],
        ).contains(j)
}

/// The steps of the run that is open: those behind the last message.
#[verifier::spinoff_prover]
#[verifier::rlimit(40)]
proof fn lemma_open_run(shapes: Seq<Shape>, i: int)
    ensures
        places_in(Item::Activity(Seq::empty(), open_run(shapes))).contains(i) == (0 <= i
            < shapes.len() && shapes[i] is Tool && nothing_shown_between(
            shapes,
            i,
            shapes.len() as int,
        )),
    decreases shapes.len(),
{
    let f = |c: (int, Seq<char>)| c.0;
    let run = open_run(shapes);
    let none = Seq::<char>::empty();
    if shapes.len() == 0 {
        assert(run.map_values(f).len() == 0);
    } else {
        let above = shapes.drop_last();
        let n = above.len() as int;
        lemma_open_run(above, i);
        let old_run = open_run(above);
        assert(forall|k: int| 0 <= k < n ==> above[k] == shapes[k]);
        match shapes.last() {
            Shape::Tool(id) => {
                let got = run.map_values(f);
                let was = old_run.map_values(f);
                assert(got =~= was.push(n));
                if i == n {
                    assert(got[was.len() as int] == n);
                    assert(nothing_shown_between(shapes, i, n + 1));
                } else {
                    if was.contains(i) {
                        let k = choose|k: int| 0 <= k < was.len() && was[k] == i;
                        assert(got[k] == i);
                        assert forall|k: int| i < k < n + 1 implies !((#[trigger] shapes[k]) is Visible) by {
                            if k < n {
                                assert(above[k] == shapes[k]);
                            }
                        }
                    }
                    if got.contains(i) {
                        let k = choose|k: int| 0 <= k < got.len() && got[k] == i;
                        assert(was[k] == i);
                    }
                    if 0 <= i < n && nothing_shown_between(shapes, i, n + 1) {
                        assert forall|k: int| i < k < n implies !((#[trigger] above[k]) is Visible) by {
                            assert(above[k] == shapes[k]);
                        }
                    }
                }
            },
            Shape::Hidden => {
                if 0 <= i < n {
                    if nothing_shown_between(above, i, n) {
                        assert forall|k: int| i < k < n + 1 implies !((#[trigger] shapes[k]) is Visible) by {
                            if k < n {
                                assert(above[k] == shapes[k]);
                            }
                        }
                    }
                    if nothing_shown_between(shapes, i, n + 1) {
                        assert forall|k: int| i < k < n implies !((#[trigger] above[k]) is Visible) by {
                            assert(above[k] == shapes[k]);
                        }
                    }
                }
            },
            Shape::Visible => {
                assert(run.map_values(f).len() == 0);
                if 0 <= i < n {
                    assert(shapes[n] is Visible);
                }
            },
        }
    }
}

/// The places of the closed rows are those of the steps so far.
proof fn lemma_closed_places(shapes: Seq<Shape>, p: int, i: int)
    requires
        0 <= p < closed_items(shapes).len(),
        places_in(closed_items(shapes)[p]).contains(i),
    ensures
        0 <= i < shapes.len(),
    decreases shapes.len(),
{
    if shapes.len() > 0 {
        let above = shapes.drop_last();
        let closed = closed_items(above);
        let run = open_run(above);
        if shapes.last() is Visible {
            if p < closed.len() {
                assert(closed_items(shapes)[p] == closed[p]);
                lemma_closed_places(above, p, i);
            } else if p < with_run(closed, run).len() {
                lemma_open_run(above, i);
                assert(places_in(closed_items(shapes)[p]) == places_in(
                    Item::Activity(Seq::empty(), run),
                ));
            } else {
                assert(closed_items(shapes)[p] == Item::Entry(shapes.len() - 1));
            }
        } else {
            lemma_closed_places(above, p, i);
        }
    }
}

/// Two steps stand in one row exactly where no message stands between them:
/// thoughts, which are not shown, part nothing.
#[verifier::spinoff_prover]
pub proof fn steps_between_messages_stand_together(shapes: Seq<Shape>, i: int, j: int)
    requires
        0 <= i < j < shapes.len(),
        shapes[i] is Tool,
        shapes[j] is Tool,
    ensures
        together(items_of(shapes), i, j) == nothing_shown_between(shapes, i, j),
    decreases shapes.len(),
{
    let above = shapes.drop_last();
    let n = above.len() as int;
    let closed = closed_items(above);
    let run = open_run(above);
    let before = items_of(above);
    let after = items_of(shapes);
    assert(forall|k: int| 0 <= k < n ==> above[k] == shapes[k]);
    if j < n {
        steps_between_messages_stand_together(above, i, j);
        assert(nothing_shown_between(above, i, j) == nothing_shown_between(shapes, i, j)) by {
            if nothing_shown_between(above, i, j) {
                assert forall|k: int| i < k < j implies !((#[trigger] shapes[k]) is Visible) by {
                    assert(above[k] == shapes[k]);
                }
            }
            if nothing_shown_between(shapes, i, j) {
                assert forall|k: int| i < k < j implies !((#[trigger] above[k]) is Visible) by {
                    assert(above[k] == shapes[k]);
                }
            }
        }
        match shapes.last() {
            Shape::Visible => {
                assert(after =~= before.push(Item::Entry(n)));
                lemma_together_push(before, Item::Entry(n), i, j);
            },
            Shape::Hidden => {
                assert(after == before);
            },
            Shape::Tool(id) => {
                let longer = run.push((n, id));
                assert(longer.take(run.len() as int) =~= run);
                lemma_together_run(closed, run, longer, n, i, j);
            },
        }
    } else {
        // The last step goes to the run that is open.
        match shapes.last() {
            Shape::Tool(id) => {
                let longer = run.push((n, id));
                assert(after == with_run(closed, longer));
                lemma_open_run(shapes, i);
                lemma_open_run(shapes, j);
                assert(nothing_shown_between(shapes, j, n + 1));
                assert(nothing_shown_between(shapes, i, n + 1) == nothing_shown_between(
                    shapes,
                    i,
                    n,
                ));
                let last = after.len() - 1;
                assert(after[last] == Item::Activity(longer[0].1, longer));
                assert(places_in(after[last]) == places_in(Item::Activity(Seq::empty(), longer)));
                if together(after, i, j) {
                    let p = choose|p: int|
                        0 <= p < after.len() && places_in(#[trigger] after[p]).contains(i)
                            && places_in(after[p]).contains(j);
                    if p < last {
                        assert(after[p] == closed[p]);
                        lemma_closed_places(above, p, j);
                    }
                }
            },
            _ => {},
        }
    }
}

proof fn lemma_together_push(items: Seq<Item>, item: Item, i: int, j: int)
    requires
        !(places_in(item).contains(i) && places_in(item).contains(j)),
    ensures
        together(items.push(item), i, j) == together(items, i, j),
{
    let all = items.push(item);
    if together(items, i, j) {
        let p = choose|p: int|
            0 <= p < items.len() && places_in(#[trigger] items[p]).contains(i) && places_in(
                items[p],
            ).contains(j);
        assert(all[p] == items[p]);
    }
    if together(all, i, j) {
        let p = choose|p: int|
            0 <= p < all.len() && places_in(#[trigger] all[p]).contains(i) && places_in(
                all[p],
            ).contains(j);
        assert(all[p] == items[p]);
    }
}

/// A step more at the end of the run changes nothing for the steps before it.
proof fn lemma_together_run(
    closed: Seq<Item>,
    run: Seq<(int, Seq<char>)>,
    longer: Seq<(int, Seq<char>)>,
    n: int,
    i: int,
    j: int,
)
    requires
        longer.len() == run.len() + 1,
        longer.take(run.len() as int) == run,
        longer.last().0 == n,
        i < n,
        j < n,
        i != j,
    ensures
        together(with_run(closed, longer), i, j) == together(with_run(closed, run), i, j),
{
    let f = |c: (int, Seq<char>)| c.0;
    let a = Item::Activity(longer[0].1, longer);
    let x = longer.map_values(f);
    let y = run.map_values(f);
    assert(x =~= y.push(n)) by {
        assert forall|k: int| 0 <= k < run.len() implies longer[k] == run[k] by {
            assert(longer.take(run.len() as int)[k] == longer[k]);
        }
    }
    assert(x.contains(i) == y.contains(i)) by {
        lemma_more(y, n, i);
    }
    assert(x.contains(j) == y.contains(j)) by {
        lemma_more(y, n, j);
    }
    if run.len() == 0 {
        assert(!y.contains(i));
        lemma_together_push(closed, a, i, j);
    } else {
        let b = Item::Activity(run[0].1, run);
        if x.contains(i) && x.contains(j) {
            let s = closed.push(a);
            let t = closed.push(b);
            assert(places_in(s[closed.len() as int]) == x);
            assert(places_in(t[closed.len() as int]) == y);
        } else {
            lemma_together_push(closed, a, i, j);
            lemma_together_push(closed, b, i, j);
        }
    }
}

proof fn lemma_more(y: Seq<int>, n: int, i: int)
    requires
        i != n,
    ensures
        y.push(n).contains(i) == y.contains(i),
{
    let x = y.push(n);
    if y.contains(i) {
        let k = choose|k: int| 0 <= k < y.len() && y[k] == i;
        assert(x[k] == i);
    }
    if x.contains(i) {
        let k = choose|k: int| 0 <= k < x.len() && x[k] == i;
        assert(y[k] == i);
    }
}

/// A key means the first row that it can mean.
pub proof fn keys_mean_the_first_row(items: Seq<Item>, key: Key)
    ensures
        match position_of(items, key) {
            Some(at) => 0 <= at < items.len() && means(items[at], key) && forall|p: int|
                0 <= p < at ==> !means(#[trigger] items[p], key),
            None => forall|p: int| 0 <= p < items.len() ==> !means(#[trigger] items[p], key),
        },
{
    lemma_position(items, key);
}

/// Motions go row by row and stay among the rows; going on and back again ends
/// where it began.
pub proof fn motions_go_row_by_row(p: int, n: int)
    requires
        0 <= p < n,
    ensures
        forall|m: Motion| 0 <= #[trigger] moved(m, Some(p), n) < n,
        forall|m: Motion| 0 <= #[trigger] moved(m, None, n) < n,
        p + 1 < n ==> moved(Motion::Next, Some(p), n) - p == 1,
        p > 0 ==> p - moved(Motion::Previous, Some(p), n) == 1,
        p + 1 < n ==> moved(Motion::Previous, Some(moved(Motion::Next, Some(p), n)), n) == p,
        moved(Motion::Next, Some(n - 1), n) == n - 1,
        moved(Motion::Previous, Some(0), n) == 0,
        moved(Motion::First, Some(p), n) == 0,
        moved(Motion::Last, Some(p), n) == n - 1,
        moved(Motion::Next, None, n) == moved(Motion::First, None, n),
        moved(Motion::Previous, None, n) == moved(Motion::Last, None, n),
{
}

/// The notes of a kind of work are those that its calls touched, each once.
#[verifier::spinoff_prover]
#[verifier::rlimit(40)]
pub proof fn notes_are_those_touched(calls: Seq<(ToolKind, Option<Seq<char>>)>, w: Work)
    ensures
        forall|note: Seq<char>| #[trigger]
            notes(calls, w).contains(note) == exists|i: int|
                0 <= i < calls.len() && work_of((#[trigger] calls[i]).0) == w && calls[i].1 == Some(
                    note,
                ),
        notes(calls, w).no_duplicates(),
    decreases calls.len(),
{
    let all = notes(calls, w);
    if calls.len() == 0 {
        assert(all.len() == 0);
    } else {
        let rest = calls.drop_last();
        let above = notes(rest, w);
        let last = calls[calls.len() - 1];
        notes_are_those_touched(rest, w);
        assert(all == above || (last.1 is Some && all == above.push(last.1->0)));
        assert forall|note: Seq<char>| #[trigger]
            all.contains(note) == exists|i: int|
                0 <= i < calls.len() && work_of((#[trigger] calls[i]).0) == w && calls[i].1 == Some(
                    note,
                ) by {
            assert(above.contains(note) == exists|i: int|
                0 <= i < rest.len() && work_of((#[trigger] rest[i]).0) == w && rest[i].1 == Some(
                    note,
                ));
            if all.contains(note) {
                if above.contains(note) {
                    let i = choose|i: int|
                        0 <= i < rest.len() && work_of((#[trigger] rest[i]).0) == w && rest[i].1
                            == Some(note);
                    assert(calls[i] == rest[i]);
                } else {
                    let k = choose|k: int| 0 <= k < all.len() && all[k] == note;
                    if k < above.len() {
                        assert(above[k] == note);
                    }
                    assert(work_of(calls[calls.len() - 1].0) == w);
                }
            }
            if exists|i: int|
                0 <= i < calls.len() && work_of((#[trigger] calls[i]).0) == w && calls[i].1 == Some(
                    note,
                ) {
                let i = choose|i: int|
                    0 <= i < calls.len() && work_of((#[trigger] calls[i]).0) == w && calls[i].1
                        == Some(note);
                if i < rest.len() {
                    assert(rest[i] == calls[i]);
                    let k = choose|k: int| 0 <= k < above.len() && above[k] == note;
                    assert(all[k] == note);
                } else if above.contains(note) {
                    let k = choose|k: int| 0 <= k < above.len() && above[k] == note;
                    assert(all[k] == note);
                } else {
                    assert(all[all.len() - 1] == note);
                }
            }
        }
        if all != above {
            let note = last.1->0;
            assert(!above.contains(note));
            assert forall|i: int, j: int| 0 <= i < all.len() && 0 <= j < all.len() && i
                != j implies all[i] != all[j] by {
                if i < above.len() && j < above.len() {
                    assert(above[i] != above[j]);
                } else if i < above.len() {
                    assert(above[i] == all[i]);
                } else {
                    assert(above[j] == all[j]);
                }
            }
        }
    }
}

/// Whether all that changed anything took notes away.
pub open spec fn only_deleted(calls: Seq<(ToolKind, Option<Seq<char>>)>) -> bool {
    forall|i: int|
        0 <= i < calls.len() && work_of((#[trigger] calls[i]).0) == Work::Write ==> calls[i].0
            == ToolKind::Delete
}

#[verifier::spinoff_prover]
proof fn lemma_summary_verbs(calls: Seq<(ToolKind, Option<Seq<char>>)>, live: bool)
    ensures
        ({
            let s = summary(calls, live);
            let wrote = exists|i: int|
                0 <= i < calls.len() && work_of((#[trigger] calls[i]).0) == Work::Write;
            let looked = exists|i: int|
                0 <= i < calls.len() && work_of((#[trigger] calls[i]).0) == Work::Look;
            let n = notes(calls, Work::Write);
            &&& wrote && n.len() == 1 ==> (if only_deleted(calls) {
                begins(s, "Remov"@)
            } else {
                begins(s, "Updat"@)
            })
            &&& wrote && n.len() != 1 ==> begins(s, "Updat"@)
            &&& !wrote && looked ==> begins(s, "Look"@)
            &&& !wrote && !looked ==> begins(s, "Work"@)
        }),
{
    reveal_strlit("Remov");
    reveal_strlit("Updat");
    reveal_strlit("Look");
    reveal_strlit("Work");
    reveal_strlit("Removing ");
    reveal_strlit("Removed ");
    reveal_strlit("Updating ");
    reveal_strlit("Updated ");
    reveal_strlit("Updating your notes…");
    reveal_strlit("Updated your notes");
    reveal_strlit("Looking at ");
    reveal_strlit("Looked at ");
    reveal_strlit("Looking through your notes…");
    reveal_strlit("Looked through your notes");
    reveal_strlit("Working behind the scenes…");
    reveal_strlit("Worked behind the scenes");
    let s = summary(calls, live);
    let n = notes(calls, Work::Write);
    if any_work(calls, Work::Write) {
        if n.len() == 1 && only_deleted(calls) {
            assert(all_of(calls, Work::Write, ToolKind::Delete));
            assert(s.subrange(0, 5) =~= "Remov"@);
        } else {
            assert(s.subrange(0, 5) =~= "Updat"@);
        }
    } else if any_work(calls, Work::Look) {
        assert(s.subrange(0, 4) =~= "Look"@);
    } else {
        assert(s.subrange(0, 4) =~= "Work"@);
    }
}

/// An activity is named for what it changed, where it changed anything, else for
/// what it looked at: by the note, where it was one, else by how many there were.
#[verifier::spinoff_prover]
#[verifier::rlimit(40)]
pub proof fn activities_are_named_for_what_they_did(
    calls: Seq<(ToolKind, Option<Seq<char>>)>,
    live: bool,
)
    ensures
        ({
            let s = summary(calls, live);
            let wrote = exists|i: int|
                0 <= i < calls.len() && work_of((#[trigger] calls[i]).0) == Work::Write;
            let looked = exists|i: int|
                0 <= i < calls.len() && work_of((#[trigger] calls[i]).0) == Work::Look;
            let only_read = forall|i: int|
                0 <= i < calls.len() && work_of((#[trigger] calls[i]).0) == Work::Look
                    ==> calls[i].0 == ToolKind::Read;
            let n = notes(calls, Work::Write);
            let m = notes(calls, Work::Look);
            &&& wrote && n.len() == 1 ==> has(s, n[0])
            &&& wrote && n.len() > 1 && !live ==> has(s, decimal(n.len()))
            &&& !wrote && looked && m.len() == 1 && only_read ==> has(s, m[0])
            &&& live ==> ends(s, "…"@)
            &&& wrote && n.len() == 1 ==> (if only_deleted(calls) {
                begins(s, "Remov"@)
            } else {
                begins(s, "Updat"@)
            })
            &&& wrote && n.len() != 1 ==> begins(s, "Updat"@)
            &&& !wrote && looked ==> begins(s, "Look"@)
            &&& !wrote && !looked ==> begins(s, "Work"@)
        }),
{
    lemma_summary_verbs(calls, live);
    reveal_strlit("…");
    reveal_strlit("Updating your notes…");
    reveal_strlit("Looking through your notes…");
    reveal_strlit("Working behind the scenes…");
    let none = Seq::<char>::empty();
    let s = summary(calls, live);
    let n = notes(calls, Work::Write);
    let m = notes(calls, Work::Look);
    if n.len() == 1 {
        lemma_has_between("Removing "@, n[0], "…"@);
        lemma_has_between("Removed "@, n[0], none);
        lemma_has_between("Updating "@, n[0], "…"@);
        lemma_has_between("Updated "@, n[0], none);
        assert("Removed "@ + n[0] + none =~= "Removed "@ + n[0]);
        assert("Updated "@ + n[0] + none =~= "Updated "@ + n[0]);
    }
    lemma_has_between("Updated "@, decimal(n.len()), " notes"@);
    if m.len() == 1 {
        lemma_has_between("Looking at "@, m[0], "…"@);
        lemma_has_between("Looked at "@, m[0], none);
        assert("Looked at "@ + m[0] + none =~= "Looked at "@ + m[0]);
    }
    if live {
        assert(s.last() == '…');
        assert(s.subrange(s.len() - 1, s.len() as int) =~= "…"@);
    }
}

/// What changes notes is told from what only looks, and both from the rest.
pub proof fn work_is_told_apart(kind: ToolKind)
    ensures
        work_of(kind) is Write <==> kind is Edit || kind is Delete || kind is Move,
        work_of(kind) is Look <==> kind is Read || kind is Search || kind is Fetch,
        work_of(kind) is Other <==> kind is Execute || kind is Think || kind is SwitchMode || kind
            is Other,
{
}

/// No two kinds of tool call go by the same verb.
#[verifier::spinoff_prover]
#[verifier::rlimit(40)]
pub proof fn verbs_tell_kinds_apart(a: ToolKind, b: ToolKind)
    requires
        a != b,
    ensures
        verb_of(a) != verb_of(b),
{
    reveal_strlit("Read");
    reveal_strlit("Edited");
    reveal_strlit("Removed");
    reveal_strlit("Moved");
    reveal_strlit("Searched");
    reveal_strlit("Ran");
    reveal_strlit("Thought");
    reveal_strlit("Looked up");
    reveal_strlit("Switched");
    reveal_strlit("Worked");
    let x = verb_of(a);
    let y = verb_of(b);
    if x == y {
        assert(x.len() == y.len());
        assert(x[0] == y[0]);
        assert(x[1] == y[1]);
        assert(x[2] == y[2]);
    }
}

/// A call is live until it ended, one way or another.
pub proof fn calls_are_live_until_they_end(status: CallStatus)
    ensures
        is_live(status) <==> !(status is Completed || status is Failed || status is Rejected
            || status is Canceled),
{
}

/// The first call with a place, among those that write or among all.
pub open spec fn is_first_place(calls: Seq<ToolCall>, writes: bool, k: int) -> bool {
    &&& 0 <= k < calls.len()
    &&& calls[k].location is Some
    &&& writes ==> work_of(calls[k].kind) is Write
    &&& forall|j: int|
        0 <= j < k ==> (#[trigger] calls[j]).location is None || (writes && !(work_of(
            calls[j].kind,
        ) is Write))
}

proof fn lemma_first_path(calls: Seq<ToolCall>, writes: bool)
    ensures
        match first_path(calls, writes) {
            Some(path) => exists|k: int| #[trigger]
                is_first_place(calls, writes, k) && text_of(calls[k].location) == Some(path),
            None => forall|j: int|
                0 <= j < calls.len() ==> (#[trigger] calls[j]).location is None || (writes
                    && !(work_of(calls[j].kind) is Write)),
        },
    decreases calls.len(),
{
    if calls.len() > 0 {
        let rest = calls.drop_last();
        let n = rest.len() as int;
        lemma_first_path(rest, writes);
        assert(calls[n] == calls.last());
        assert(forall|j: int| 0 <= j < n ==> rest[j] == calls[j]);
        match first_path(rest, writes) {
            Some(path) => {
                let k = choose|k: int| #[trigger]
                    is_first_place(rest, writes, k) && text_of(rest[k].location) == Some(path);
                assert forall|j: int| 0 <= j < k implies (#[trigger] calls[j]).location is None || (
                writes && !(work_of(calls[j].kind) is Write)) by {
                    assert(rest[j] == calls[j]);
                }
                assert(is_first_place(calls, writes, k));
            },
            None => {
                assert forall|j: int| 0 <= j < n implies (#[trigger] calls[j]).location is None || (
                writes && !(work_of(calls[j].kind) is Write)) by {
                    assert(rest[j] == calls[j]);
                }
                if first_path(calls, writes) is Some {
                    assert(is_first_place(calls, writes, n));
                }
            },
        }
    }
}

/// What an activity opens is the first note that it wrote, else the first that it
/// touched.
pub proof fn activities_open_what_they_wrote(calls: Seq<ToolCall>)
    ensures
        match opened_path(calls) {
            Some(path) => exists|k: int|
                text_of((#[trigger] calls[k]).location) == Some(path) && (is_first_place(
                    calls,
                    true,
                    k,
                ) || (is_first_place(calls, false, k) && forall|j: int|
                    0 <= j < calls.len() ==> (#[trigger] calls[j]).location is None || !(work_of(
                        calls[j].kind,
                    ) is Write))),
            None => forall|j: int| 0 <= j < calls.len() ==> (#[trigger] calls[j]).location is None,
        },
{
    lemma_first_path(calls, true);
    lemma_first_path(calls, false);
    if first_path(calls, true) is Some {
        let k = choose|k: int| #[trigger]
            is_first_place(calls, true, k) && text_of(calls[k].location) == first_path(calls, true);
        assert(text_of(calls[k].location) == opened_path(calls));
    } else if first_path(calls, false) is Some {
        let k = choose|k: int| #[trigger]
            is_first_place(calls, false, k) && text_of(calls[k].location) == first_path(
                calls,
                false,
            );
        assert(text_of(calls[k].location) == opened_path(calls));
    }
}

/// A text is sent where there is something in it, a chat to send it to that has
/// turns left and is not busy, and an allowance; it is sent without the white
/// space around it.
pub proof fn what_may_be_sent_is_sent(
    session: Option<ChatSession>,
    connection: PlusConnection,
    text: Seq<char>,
    generating: bool,
)
    ensures
        ({
            let step = sending(session, connection, text, generating);
            let spent = connection matches PlusConnection::Connected { entitlement, .. }
                && entitlement.exhausted;
            let full = session matches Some(s) && s.max_turns != 0 && s.turns >= s.max_turns;
            &&& step is Send <==> trim(text).len() > 0 && !spent && session is Some && !full
                && !generating
            &&& step matches Sending::Send(t) ==> t == trim(text)
            &&& trim(text).len() == 0 ==> step is Nothing
            &&& trim(text).len() > 0 && spent ==> step == Sending::Refuse(OUT_OF_ALLOWANCE@)
            &&& trim(text).len() > 0 && !spent && full ==> step == Sending::Refuse(TOO_LONG@)
            &&& trim(text).len() > 0 && !spent && session is Some && !full && generating ==> step
                == Sending::Refuse(STILL_WORKING@)
        }),
{
}

/// A service that cannot be reached takes nothing away; a credential that is
/// turned off is, with the reason given; a read connects, with what it read.
pub proof fn connections_follow_the_service(
    connection: PlusConnection,
    credential: String,
    fetched: Fetched,
)
    ensures
        ({
            let next = after_fetch(connection, credential, fetched);
            &&& fetched matches Fetched::Read(e) ==> entitlement_of(next) == Some(e)
            &&& fetched matches Fetched::Refused { message, invalidates_credential } ==> (
            invalidates_credential <==> next is Revoked) || (!invalidates_credential && connection
                is Revoked)
            &&& fetched matches Fetched::Refused { message, invalidates_credential } ==> (
            invalidates_credential ==> next == PlusConnection::Revoked(message))
            &&& fetched is Unreachable && connection is Connected ==> next == connection
            &&& fetched is Unreachable && !(connection is Connected) ==> next is Disconnected
            &&& fetched matches Fetched::Refused { message, invalidates_credential } ==> (
            !invalidates_credential && connection is Connected ==> next == connection)
        }),
{
}

/// A choice that was made counts; without one the hosted agent is used exactly
/// where it is connected.
pub proof fn choices_of_agent_count(mode: Option<ConnectionMode>, connection: PlusConnection)
    ensures
        mode matches Some(m) ==> mode_of(mode, connection) == m,
        mode is None ==> (mode_of(mode, connection) is Hosted <==> connection is Connected),
{
}

/// The warning names how much is used.
pub proof fn warnings_name_the_use(entitlement: Entitlement)
    ensures
        has(low_warning(entitlement), decimal(entitlement.used_percent as nat)),
{
    lemma_has_between(
        "The Thock Agent has used "@,
        decimal(entitlement.used_percent as nat),
        "% of this cycle's allowance."@,
    );
}

/// The last choice that was made for a question counts, and no other question's.
pub proof fn the_last_choice_counts(
    choices: Seq<(String, usize)>,
    id: String,
    option: usize,
    other: Seq<char>,
)
    ensures
        choice_of(choices.push((id, option)), id@) == Some(option),
        other != id@ ==> choice_of(choices.push((id, option)), other) == choice_of(choices, other),
{
    let all = choices.push((id, option));
    assert(all.drop_last() =~= choices);
}

/// A note in the vault is named by its place in it, any other file by its name
/// alone.
pub proof fn files_are_named_by_their_place(root: Seq<char>, rest: Seq<char>, path: Seq<char>)
    requires
        root.len() > 0,
        ends_in_a_name(rest),
        rest[0] != '/',
        rest[0] != '.',
    ensures
        path_label(root + seq!['/'] + rest, Some(root)) == rest,
        file_name(path).len() > 0 && file_name(path) != "."@ && file_name(path) != ".."@
            ==> path_label(path, None) == file_name(path),
{
    paths_are_shown_inside_their_folder(root, rest);
}

/// A call is told by the place that it touched, else by its label, unless that is
/// only the tool's name.
pub proof fn calls_are_told_by_place_or_label(call: ToolCall, root: Option<Seq<char>>)
    ensures
        call.location matches Some(path) ==> detail_of(call, root) == Some(
            path_label(path@, root),
        ),
        call.location is None ==> (detail_of(call, root) is Some <==> call.label@.len() > 0
            && text_of(call.tool_name) != Some(call.label@)),
        call.location is None ==> (detail_of(call, root) matches Some(d) ==> d == call.label@),
{
}

/// Prose is being written where the last entry is a message with words in it.
pub proof fn prose_is_written_last(entries: Seq<ThreadEntry>)
    ensures
        entries.len() == 0 ==> !streaming_prose(entries),
        streaming_prose(entries) ==> entries.last() is AssistantMessage,
        entries.len() > 0 ==> (entries.last() matches ThreadEntry::AssistantMessage(chunks) ==> (
        chunks@.len() > 0 && chunks@[0] is Message ==> streaming_prose(entries))),
{
}

} // verus!
