//! Stable sorting.

use vstd::prelude::*;

verus! {

/// Values with an order to sort by.
pub trait Ranked: View + Sized {
    /// Whether `a` ranks before `b`.
    spec fn before(a: Self::V, b: Self::V) -> bool;

    /// Whether `self` ranks before `other`.
    fn is_before(&self, other: &Self) -> (yes: bool)
        ensures
            yes == Self::before(self@, other@),
    ;
}

/// The views of the elements.
pub open spec fn views<T: View>(s: Seq<T>) -> Seq<T::V> {
    s.map_values(|x: T| x@)
}

/// `x` put behind the last element that it does not rank before.
pub open spec fn put<T: Ranked>(s: Seq<T::V>, x: T::V) -> Seq<T::V>
    decreases s.len(),
{
    if s.len() > 0 && T::before(x, s.last()) {
        put::<T>(s.drop_last(), x).push(s.last())
    } else {
        s.push(x)
    }
}

/// The elements in ascending order; of two that rank alike the earlier one
/// stays in front.
pub open spec fn sorted<T: Ranked>(s: Seq<T::V>) -> Seq<T::V>
    decreases s.len(),
{
    if s.len() == 0 {
        s
    } else {
        put::<T>(sorted::<T>(s.drop_last()), s.last())
    }
}

/// Where `x` goes: in front of a run of elements that it ranks before.
pub proof fn lemma_put_at<T: Ranked>(s: Seq<T::V>, x: T::V, at: int)
    requires
        0 <= at <= s.len(),
        forall|k: int| at <= k < s.len() ==> T::before(x, #[trigger] s[k]),
        at > 0 ==> !T::before(x, s[at - 1]),
    ensures
        put::<T>(s, x) == s.insert(at, x),
    decreases s.len(),
{
    if at == s.len() {
        assert(s.insert(at, x) =~= s.push(x));
    } else {
        assert(T::before(x, s[s.len() - 1]));
        let rest = s.drop_last();
        assert(at > 0 ==> rest[at - 1] == s[at - 1]);
        lemma_put_at::<T>(rest, x, at);
        assert(s.insert(at, x) =~= rest.insert(at, x).push(s.last()));
    }
}

/// `put` adds one element.
pub proof fn lemma_put_len<T: Ranked>(s: Seq<T::V>, x: T::V)
    ensures
        put::<T>(s, x).len() == s.len() + 1,
        put::<T>(s, x).to_multiset() == s.to_multiset().insert(x),
    decreases s.len(),
{
    broadcast use vstd::seq_lib::group_to_multiset_ensures;
    if s.len() > 0 && T::before(x, s.last()) {
        lemma_put_len::<T>(s.drop_last(), x);
        assert(s =~= s.drop_last().push(s.last()));
        assert(s.drop_last().to_multiset().insert(x).insert(s.last()) =~= s.to_multiset().insert(x));
    }
}

/// Sorting keeps the elements, each as often as it occurs.
pub proof fn lemma_sorted_keeps<T: Ranked>(s: Seq<T::V>)
    ensures
        sorted::<T>(s).len() == s.len(),
        sorted::<T>(s).to_multiset() == s.to_multiset(),
    decreases s.len(),
{
    broadcast use vstd::seq_lib::group_to_multiset_ensures;
    if s.len() > 0 {
        lemma_sorted_keeps::<T>(s.drop_last());
        lemma_put_len::<T>(sorted::<T>(s.drop_last()), s.last());
        assert(s =~= s.drop_last().push(s.last()));
    }
}

/// Sorting keeps the members.
pub proof fn lemma_sorted_members<T: Ranked>(s: Seq<T::V>, x: T::V)
    ensures
        sorted::<T>(s).contains(x) == s.contains(x),
{
    broadcast use vstd::seq_lib::group_to_multiset_ensures;

    lemma_sorted_keeps::<T>(s);
    assert(sorted::<T>(s).to_multiset().contains(x) == s.to_multiset().contains(x));
}

/// Whether no element ranks before an earlier one.
pub open spec fn ascending<T: Ranked>(s: Seq<T::V>) -> bool {
    forall|i: int, j: int| 0 <= i < j < s.len() ==> !T::before(#[trigger] s[j], #[trigger] s[i])
}

proof fn lemma_put_ascending<T: Ranked>(s: Seq<T::V>, x: T::V)
    requires
        ascending::<T>(s),
        forall|a: T::V, b: T::V| #[trigger] T::before(a, b) ==> !T::before(b, a),
        forall|a: T::V, b: T::V, c: T::V|
            #[trigger] T::before(a, b) && !(#[trigger] T::before(c, b)) ==> T::before(a, c),
    ensures
        ascending::<T>(put::<T>(s, x)),
        forall|i: int|
            0 <= i < put::<T>(s, x).len() ==> put::<T>(s, x)[i] == x || s.contains(
                #[trigger] put::<T>(s, x)[i],
            ),
    decreases s.len(),
{
    let out = put::<T>(s, x);
    if s.len() > 0 && T::before(x, s.last()) {
        let rest = s.drop_last();
        lemma_put_ascending::<T>(rest, x);
        let p = put::<T>(rest, x);
        assert forall|i: int| 0 <= i < out.len() implies out[i] == x || s.contains(
            #[trigger] out[i],
        ) by {
            if i < p.len() {
                assert(out[i] == p[i]);
                if p[i] != x {
                    let k = choose|k: int| 0 <= k < rest.len() && rest[k] == p[i];
                    assert(s[k] == p[i]);
                }
            } else {
                assert(s[s.len() - 1] == out[i]);
            }
        }
        assert forall|i: int, j: int| 0 <= i < j < out.len() implies !T::before(
            #[trigger] out[j],
            #[trigger] out[i],
        ) by {
            if j < p.len() {
                assert(out[i] == p[i] && out[j] == p[j]);
            } else {
                assert(out[i] == p[i]);
                assert(out[j] == s.last());
                if p[i] != x {
                    let k = choose|k: int| 0 <= k < rest.len() && rest[k] == p[i];
                    assert(s[k] == p[i] && s[s.len() - 1] == s.last());
                }
            }
        }
    } else {
        assert forall|i: int| 0 <= i < out.len() implies out[i] == x || s.contains(
            #[trigger] out[i],
        ) by {
            if i < s.len() {
                assert(s[i] == out[i]);
            }
        }
        assert forall|i: int, j: int| 0 <= i < j < out.len() implies !T::before(
            #[trigger] out[j],
            #[trigger] out[i],
        ) by {
            if j < s.len() {
                assert(out[i] == s[i] && out[j] == s[j]);
            } else {
                assert(out[i] == s[i]);
                if T::before(x, s[i]) {
                    // Else `x` would rank before the last element too.
                    let last = s.len() - 1;
                    if i < last {
                        assert(!T::before(s[last], s[i]));
                        assert(T::before(x, s[last]));
                    }
                }
            }
        }
    }
}

/// Sorting puts the elements in ascending order.
pub proof fn lemma_sorted_ascending<T: Ranked>(s: Seq<T::V>)
    requires
        forall|a: T::V, b: T::V| #[trigger] T::before(a, b) ==> !T::before(b, a),
        forall|a: T::V, b: T::V, c: T::V|
            #[trigger] T::before(a, b) && !(#[trigger] T::before(c, b)) ==> T::before(a, c),
    ensures
        ascending::<T>(sorted::<T>(s)),
    decreases s.len(),
{
    if s.len() > 0 {
        lemma_sorted_ascending::<T>(s.drop_last());
        lemma_put_ascending::<T>(sorted::<T>(s.drop_last()), s.last());
    }
}

/// Sorts, keeping the order of elements that rank alike.
pub fn sort<T: Ranked>(items: Vec<T>) -> (out: Vec<T>)
    ensures
        views(out@) == sorted::<T>(views(items@)),
{
    let mut items = items;
    let mut queue: Vec<T> = Vec::new();
    let ghost all = items@;
    // Reversed, so that popping hands the items out in order.
    while items.len() > 0
        invariant
            items@.len() + queue@.len() == all.len(),
            items@ == all.take(items@.len() as int),
            forall|k: int|
                0 <= k < queue@.len() ==> #[trigger] queue@[k] == all[all.len() - 1 - k],
        decreases items@.len(),
    {
        let ghost n = items@.len();
        match items.pop() {
            Some(item) => {
                queue.push(item);
                assert(items@ =~= all.take(n - 1));
            },
            None => {},
        }
    }
    let mut out: Vec<T> = Vec::new();
    assert(views(all).take(0) =~= Seq::<T::V>::empty());
    while queue.len() > 0
        invariant
            queue@.len() <= all.len(),
            forall|k: int|
                0 <= k < queue@.len() ==> #[trigger] queue@[k] == all[all.len() - 1 - k],
            views(out@) == sorted::<T>(views(all).take(all.len() - queue@.len())),
        decreases queue@.len(),
    {
        let ghost done = all.len() - queue@.len();
        match queue.pop() {
            Some(item) => {
                assert(item == all[done]);
                let mut at: usize = out.len();
                while at > 0 && item.is_before(&out[at - 1])
                    invariant
                        at <= out@.len(),
                        forall|k: int|
                            at <= k < out@.len() ==> T::before(item@, #[trigger] views(out@)[k]),
                    decreases at,
                {
                    at = at - 1;
                }
                proof {
                    lemma_put_at::<T>(views(out@), item@, at as int);
                    assert(views(all).take(done + 1).drop_last() =~= views(all).take(done));
                    assert(views(all).take(done + 1).last() == item@);
                    assert(views(out@.insert(at as int, item)) =~= views(out@).insert(
                        at as int,
                        item@,
                    ));
                }
                out.insert(at, item);
            },
            None => {},
        }
    }
    assert(views(all).take(all.len() as int) =~= views(all));
    out
}

} // verus!
