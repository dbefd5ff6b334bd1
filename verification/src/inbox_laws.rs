//! What holds of every capture.

use vstd::prelude::*;
use crate::inbox::{
    all_stamped, base_name, capture_plan, claimed, digest_of, field, has_digest, item_digest,
    note_front, note_text, planned, stem_for, Item, Plan, Stamped, StampedItem,
};
use crate::lines::{lines, strip_cr};
use crate::sort::{put, sorted};
use crate::synced_line::all_hex;
use crate::text::{begins, ends, find, matches_at, trim};
use crate::words::{first_value, frontmatter, frontmatter_value};

verus! {

/// Whether an item of the sequence has the digest.
pub open spec fn captured(items: Seq<Item>, account: Seq<char>, digest: Seq<char>) -> bool {
    exists|i: int|
        0 <= i < items.len() && #[trigger] item_digest(
            account,
            items[i].source,
            items[i].external_id,
        ) == digest
}

/// Whether the plan remembers the digest.
pub open spec fn remembers(plan: Plan, digest: Seq<char>) -> bool {
    exists|i: int| 0 <= i < plan.records.len() && #[trigger] plan.records[i].digest == digest
}

/// Whether the plan writes a note with the digest.
pub open spec fn writes(plan: Plan, digest: Seq<char>) -> bool {
    exists|i: int| 0 <= i < plan.files.len() && #[trigger] plan.files[i].digest == digest
}

/// The items of stamped items.
pub open spec fn unstamped(s: Seq<Stamped>) -> Seq<Item> {
    s.map_values(|x: Stamped| x.item)
}

proof fn lemma_put_items(a: Seq<Stamped>, b: Seq<Stamped>, x: Stamped, y: Stamped)
    requires
        unstamped(a) == unstamped(b),
        x.item == y.item,
    ensures
        unstamped(put::<StampedItem>(a, x)) == unstamped(put::<StampedItem>(b, y)),
    decreases a.len(),
{
    assert(unstamped(a).len() == a.len() && unstamped(b).len() == b.len());
    if a.len() > 0 {
        assert(unstamped(a)[a.len() - 1] == a.last().item);
        assert(unstamped(b)[a.len() - 1] == b.last().item);
        assert(unstamped(a.drop_last()) =~= unstamped(a).drop_last());
        assert(unstamped(b.drop_last()) =~= unstamped(b).drop_last());
        lemma_put_items(a.drop_last(), b.drop_last(), x, y);
        let p = put::<StampedItem>(a.drop_last(), x);
        let q = put::<StampedItem>(b.drop_last(), y);
        assert(unstamped(p.push(a.last())) =~= unstamped(p).push(a.last().item));
        assert(unstamped(q.push(b.last())) =~= unstamped(q).push(b.last().item));
    }
    assert(unstamped(a.push(x)) =~= unstamped(a).push(x.item));
    assert(unstamped(b.push(y)) =~= unstamped(b).push(y.item));
}

/// The order of the items does not depend on how they are stamped.
proof fn lemma_sorted_items(items: Seq<Item>, at: Seq<char>, later: Seq<char>)
    ensures
        unstamped(sorted::<StampedItem>(all_stamped(items, at))) == unstamped(
            sorted::<StampedItem>(all_stamped(items, later)),
        ),
    decreases items.len(),
{
    let a = all_stamped(items, at);
    let b = all_stamped(items, later);
    if items.len() > 0 {
        lemma_sorted_items(items.drop_last(), at, later);
        assert(a.drop_last() =~= all_stamped(items.drop_last(), at));
        assert(b.drop_last() =~= all_stamped(items.drop_last(), later));
        assert(a.last().item == items.last() && b.last().item == items.last());
        lemma_put_items(
            sorted::<StampedItem>(a.drop_last()),
            sorted::<StampedItem>(b.drop_last()),
            a.last(),
            b.last(),
        );
    } else {
        assert(unstamped(a) =~= unstamped(b));
    }
}

/// What a plan does about each digest, whatever the order.
proof fn lemma_planned(
    items: Seq<Stamped>,
    account: Seq<char>,
    imported: Seq<Seq<char>>,
    vault: Seq<Seq<char>>,
    taken: Seq<Seq<char>>,
    dir: Seq<char>,
    at: Seq<char>,
)
    ensures
        ({
            let plan = planned(items, account, imported, vault, taken, dir, at);
            &&& forall|d: Seq<char>| #[trigger]
                remembers(plan, d) == (has_digest(items, account, d) && !imported.contains(d))
            &&& forall|d: Seq<char>| #[trigger]
                writes(plan, d) == (has_digest(items, account, d) && !imported.contains(d)
                    && !vault.contains(d))
            &&& forall|i: int, j: int|
                0 <= i < j < plan.records.len() ==> (#[trigger] plan.records[i]).digest != (
                #[trigger] plan.records[j]).digest
        }),
    decreases items.len(),
{
    let plan = planned(items, account, imported, vault, taken, dir, at);
    if items.len() > 0 {
        let rest = items.drop_last();
        let x = items.last();
        let e = digest_of(account, x);
        let p = planned(rest, account, imported, vault, taken, dir, at);
        lemma_planned(rest, account, imported, vault, taken, dir, at);
        assert forall|d: Seq<char>| #[trigger]
            has_digest(items, account, d) == (has_digest(rest, account, d) || d == e) by {
            if has_digest(rest, account, d) {
                let k = choose|k: int|
                    0 <= k < rest.len() && #[trigger] digest_of(account, rest[k]) == d;
                assert(digest_of(account, items[k]) == d);
            }
            if d == e {
                assert(digest_of(account, items[items.len() - 1]) == d);
            }
            if has_digest(items, account, d) && d != e {
                let k = choose|k: int|
                    0 <= k < items.len() && #[trigger] digest_of(account, items[k]) == d;
                assert(digest_of(account, rest[k]) == d);
            }
        }
        let skipped = imported.contains(e) || has_digest(rest, account, e);
        assert forall|d: Seq<char>| #[trigger]
            remembers(plan, d) == (has_digest(items, account, d) && !imported.contains(d)) by {
            assert(remembers(p, d) == (has_digest(rest, account, d) && !imported.contains(d)));
            if !skipped {
                if remembers(p, d) {
                    let k = choose|k: int|
                        0 <= k < p.records.len() && #[trigger] p.records[k].digest == d;
                    assert(plan.records[k].digest == d);
                }
                if d == e {
                    assert(plan.records[p.records.len() as int].digest == d);
                }
                if remembers(plan, d) && d != e {
                    let k = choose|k: int|
                        0 <= k < plan.records.len() && #[trigger] plan.records[k].digest == d;
                    assert(p.records[k].digest == d);
                }
            }
        }
        assert forall|d: Seq<char>| #[trigger]
            writes(plan, d) == (has_digest(items, account, d) && !imported.contains(d)
                && !vault.contains(d)) by {
            assert(writes(p, d) == (has_digest(rest, account, d) && !imported.contains(d)
                && !vault.contains(d)));
            if !skipped && !vault.contains(e) {
                if writes(p, d) {
                    let k = choose|k: int|
                        0 <= k < p.files.len() && #[trigger] p.files[k].digest == d;
                    assert(plan.files[k].digest == d);
                }
                if d == e {
                    assert(plan.files[p.files.len() as int].digest == d);
                }
                if writes(plan, d) && d != e {
                    let k = choose|k: int|
                        0 <= k < plan.files.len() && #[trigger] plan.files[k].digest == d;
                    assert(p.files[k].digest == d);
                }
            } else {
                assert(plan.files == p.files);
            }
        }
        assert forall|i: int, j: int| 0 <= i < j < plan.records.len() implies (
        #[trigger] plan.records[i]).digest != (#[trigger] plan.records[j]).digest by {
            if j < p.records.len() {
                assert(plan.records[i] == p.records[i] && plan.records[j] == p.records[j]);
            } else {
                assert(plan.records[i] == p.records[i]);
                assert(!remembers(p, e));
                assert(p.records[i].digest != e);
            }
        }
    }
}

/// The digests of items, whatever their order and stamps.
proof fn lemma_has_digest(
    items: Seq<Item>,
    at: Seq<char>,
    account: Seq<char>,
    digest: Seq<char>,
)
    ensures
        has_digest(sorted::<StampedItem>(all_stamped(items, at)), account, digest) == captured(
            items,
            account,
            digest,
        ),
{
    let all = all_stamped(items, at);
    let s = sorted::<StampedItem>(all);
    if has_digest(s, account, digest) {
        let k = choose|k: int| 0 <= k < s.len() && #[trigger] digest_of(account, s[k]) == digest;
        crate::sort::lemma_sorted_members::<StampedItem>(all, s[k]);
        assert(s.contains(s[k]));
        let i = choose|i: int| 0 <= i < all.len() && all[i] == s[k];
        assert(all[i].item == items[i]);
        assert(item_digest(account, items[i].source, items[i].external_id) == digest);
    }
    if captured(items, account, digest) {
        let i = choose|i: int|
            0 <= i < items.len() && #[trigger] item_digest(
                account,
                items[i].source,
                items[i].external_id,
            ) == digest;
        crate::sort::lemma_sorted_members::<StampedItem>(all, all[i]);
        assert(all.contains(all[i]));
        let k = choose|k: int| 0 <= k < s.len() && s[k] == all[i];
        assert(digest_of(account, s[k]) == digest);
    }
}

/// No capture is dropped: a plan remembers exactly the items that the state
/// does not hold, each once, and writes a note for exactly those of them that
/// the vault does not hold.
pub proof fn no_capture_is_dropped(
    items: Seq<Item>,
    account: Seq<char>,
    imported: Seq<Seq<char>>,
    vault: Seq<Seq<char>>,
    taken: Seq<Seq<char>>,
    dir: Seq<char>,
    at: Seq<char>,
)
    ensures
        ({
            let plan = capture_plan(items, account, imported, vault, taken, dir, at);
            &&& forall|d: Seq<char>| #[trigger]
                remembers(plan, d) == (captured(items, account, d) && !imported.contains(d))
            &&& forall|d: Seq<char>| #[trigger]
                writes(plan, d) == (captured(items, account, d) && !imported.contains(d)
                    && !vault.contains(d))
            &&& forall|i: int, j: int|
                0 <= i < j < plan.records.len() ==> (#[trigger] plan.records[i]).digest != (
                #[trigger] plan.records[j]).digest
        }),
{
    let plan = capture_plan(items, account, imported, vault, taken, dir, at);
    let all = sorted::<StampedItem>(all_stamped(items, at));
    lemma_planned(all, account, imported, vault, taken, dir, at);
    assert forall|d: Seq<char>| #[trigger]
        remembers(plan, d) == (captured(items, account, d) && !imported.contains(d)) by {
        lemma_has_digest(items, at, account, d);
    }
    assert forall|d: Seq<char>| #[trigger]
        writes(plan, d) == (captured(items, account, d) && !imported.contains(d)
            && !vault.contains(d)) by {
        lemma_has_digest(items, at, account, d);
    }
}

/// Planning again once the state is written finds nothing to do, whatever the
/// vault, the folder and the time are then.
pub proof fn capture_is_idempotent(
    items: Seq<Item>,
    account: Seq<char>,
    imported: Seq<Seq<char>>,
    vault: Seq<Seq<char>>,
    taken: Seq<Seq<char>>,
    dir: Seq<char>,
    at: Seq<char>,
    imported_then: Seq<Seq<char>>,
    vault_then: Seq<Seq<char>>,
    taken_then: Seq<Seq<char>>,
    dir_then: Seq<char>,
    then_at: Seq<char>,
)
    requires
        forall|d: Seq<char>| imported.contains(d) ==> #[trigger] imported_then.contains(d),
        forall|d: Seq<char>|
            remembers(capture_plan(items, account, imported, vault, taken, dir, at), d)
                ==> #[trigger] imported_then.contains(d),
    ensures
        ({
            let again = capture_plan(
                items,
                account,
                imported_then,
                vault_then,
                taken_then,
                dir_then,
                then_at,
            );
            again.files.len() == 0 && again.records.len() == 0
        }),
{
    let again = capture_plan(
        items,
        account,
        imported_then,
        vault_then,
        taken_then,
        dir_then,
        then_at,
    );
    no_capture_is_dropped(items, account, imported, vault, taken, dir, at);
    no_capture_is_dropped(
        items,
        account,
        imported_then,
        vault_then,
        taken_then,
        dir_then,
        then_at,
    );
    let plan = capture_plan(items, account, imported, vault, taken, dir, at);
    if again.records.len() > 0 {
        let d = again.records[0].digest;
        assert(remembers(again, d));
        assert(remembers(plan, d) || imported.contains(d));
        assert(imported_then.contains(d));
    }
    if again.files.len() > 0 {
        let d = again.files[0].digest;
        assert(writes(again, d));
        assert(remembers(plan, d) || imported.contains(d));
        assert(imported_then.contains(d));
    }
}

/// The records of a plan depend on the items and the state alone.
proof fn lemma_same_records(
    a: Seq<Stamped>,
    b: Seq<Stamped>,
    account: Seq<char>,
    imported: Seq<Seq<char>>,
    vault: Seq<Seq<char>>,
    taken: Seq<Seq<char>>,
    dir: Seq<char>,
    at: Seq<char>,
    vault_then: Seq<Seq<char>>,
    taken_then: Seq<Seq<char>>,
    dir_then: Seq<char>,
    then_at: Seq<char>,
)
    requires
        unstamped(a) == unstamped(b),
    ensures
        planned(a, account, imported, vault, taken, dir, at).records == planned(
            b,
            account,
            imported,
            vault_then,
            taken_then,
            dir_then,
            then_at,
        ).records,
        forall|d: Seq<char>| #[trigger]
            has_digest(a, account, d) == has_digest(b, account, d),
    decreases a.len(),
{
    assert(unstamped(a).len() == a.len() && unstamped(b).len() == b.len());
    assert forall|d: Seq<char>| #[trigger] has_digest(a, account, d) == has_digest(
        b,
        account,
        d,
    ) by {
        if has_digest(a, account, d) {
            let k = choose|k: int| 0 <= k < a.len() && #[trigger] digest_of(account, a[k]) == d;
            assert(unstamped(a)[k] == a[k].item);
            assert(unstamped(b)[k] == b[k].item);
            assert(digest_of(account, b[k]) == d);
        }
        if has_digest(b, account, d) {
            let k = choose|k: int| 0 <= k < b.len() && #[trigger] digest_of(account, b[k]) == d;
            assert(unstamped(a)[k] == a[k].item);
            assert(unstamped(b)[k] == b[k].item);
            assert(digest_of(account, a[k]) == d);
        }
    }
    if a.len() > 0 {
        assert(unstamped(a)[a.len() - 1] == a.last().item);
        assert(unstamped(b)[a.len() - 1] == b.last().item);
        assert(unstamped(a.drop_last()) =~= unstamped(a).drop_last());
        assert(unstamped(b.drop_last()) =~= unstamped(b).drop_last());
        lemma_same_records(
            a.drop_last(),
            b.drop_last(),
            account,
            imported,
            vault,
            taken,
            dir,
            at,
            vault_then,
            taken_then,
            dir_then,
            then_at,
        );
    }
}

/// Planning again with the notes written and the state lost writes no second
/// note, and remembers what the first plan did.
pub proof fn capture_repairs_the_state(
    items: Seq<Item>,
    account: Seq<char>,
    imported: Seq<Seq<char>>,
    vault: Seq<Seq<char>>,
    taken: Seq<Seq<char>>,
    dir: Seq<char>,
    at: Seq<char>,
    vault_then: Seq<Seq<char>>,
    taken_then: Seq<Seq<char>>,
    dir_then: Seq<char>,
    then_at: Seq<char>,
)
    requires
        forall|d: Seq<char>| vault.contains(d) ==> #[trigger] vault_then.contains(d),
        forall|d: Seq<char>|
            writes(capture_plan(items, account, imported, vault, taken, dir, at), d)
                ==> #[trigger] vault_then.contains(d),
    ensures
        ({
            let plan = capture_plan(items, account, imported, vault, taken, dir, at);
            let again = capture_plan(
                items,
                account,
                imported,
                vault_then,
                taken_then,
                dir_then,
                then_at,
            );
            again.files.len() == 0 && again.records == plan.records
        }),
{
    let plan = capture_plan(items, account, imported, vault, taken, dir, at);
    let again = capture_plan(
        items,
        account,
        imported,
        vault_then,
        taken_then,
        dir_then,
        then_at,
    );
    no_capture_is_dropped(items, account, imported, vault, taken, dir, at);
    no_capture_is_dropped(
        items,
        account,
        imported,
        vault_then,
        taken_then,
        dir_then,
        then_at,
    );
    if again.files.len() > 0 {
        let d = again.files[0].digest;
        assert(writes(again, d));
        assert(writes(plan, d) || vault.contains(d));
        assert(vault_then.contains(d));
    }
    lemma_sorted_items(items, at, then_at);
    lemma_same_records(
        sorted::<StampedItem>(all_stamped(items, at)),
        sorted::<StampedItem>(all_stamped(items, then_at)),
        account,
        imported,
        vault,
        taken,
        dir,
        at,
        vault_then,
        taken_then,
        dir_then,
        then_at,
    );
}

proof fn lemma_stems(
    items: Seq<Stamped>,
    account: Seq<char>,
    imported: Seq<Seq<char>>,
    vault: Seq<Seq<char>>,
    taken: Seq<Seq<char>>,
    dir: Seq<char>,
    at: Seq<char>,
    i: int,
)
    requires
        0 <= i < planned(items, account, imported, vault, taken, dir, at).files.len(),
    ensures
        ({
            let files = planned(items, account, imported, vault, taken, dir, at).files;
            &&& !claimed(taken, files.take(i), files[i].stem) || ends(
                files[i].stem,
                seq!['-'] + files[i].digest,
            )
            &&& files[i].rel_path == dir + seq!['/'] + files[i].stem + ".md"@
        }),
    decreases items.len(),
{
    let plan = planned(items, account, imported, vault, taken, dir, at);
    if items.len() > 0 {
        let rest = items.drop_last();
        let p = planned(rest, account, imported, vault, taken, dir, at);
        if i < p.files.len() {
            lemma_stems(rest, account, imported, vault, taken, dir, at, i);
            assert(plan.files.take(i) =~= p.files.take(i));
            assert(plan.files[i] == p.files[i]);
        } else {
            let x = items.last();
            let d = digest_of(account, x);
            let base = base_name(x);
            assert(plan.files.take(i) =~= p.files);
            let stem = stem_for(base, d, taken, p.files);
            assert(plan.files[i].stem == stem);
            if stem == base + seq!['-'] + d {
                assert(stem.skip(stem.len() - d.len() - 1) =~= seq!['-'] + d);
            }
        }
    }
}

/// A planned note's file name is taken neither by a file of the folder nor by
/// a note planned before, unless it is the one with the whole digest.
pub proof fn file_names_are_free(
    items: Seq<Item>,
    account: Seq<char>,
    imported: Seq<Seq<char>>,
    vault: Seq<Seq<char>>,
    taken: Seq<Seq<char>>,
    dir: Seq<char>,
    at: Seq<char>,
    i: int,
)
    requires
        0 <= i < capture_plan(items, account, imported, vault, taken, dir, at).files.len(),
    ensures
        ({
            let files = capture_plan(items, account, imported, vault, taken, dir, at).files;
            &&& !claimed(taken, files.take(i), files[i].stem) || ends(
                files[i].stem,
                seq!['-'] + files[i].digest,
            )
            &&& files[i].rel_path == dir + seq!['/'] + files[i].stem + ".md"@
        }),
{
    lemma_stems(
        sorted::<StampedItem>(all_stamped(items, at)),
        account,
        imported,
        vault,
        taken,
        dir,
        at,
        i,
    );
}

/// The first line of a text, and the rest.
proof fn lemma_first_line(a: Seq<char>, b: Seq<char>)
    requires
        forall|j: int| 0 <= j < a.len() ==> a[j] != '\n',
    ensures
        lines(a + seq!['\n'] + b) == seq![strip_cr(a)] + lines(b),
{
    let s = a + seq!['\n'] + b;
    assert forall|j: int| 0 <= j < a.len() implies s[j] != '\n' by {
        assert(s[j] == a[j]);
    }
    crate::lines::lemma_next_char_is(s, '\n', 0, a.len() as int);
    assert(s.take(a.len() as int) =~= a);
    assert(s.skip((a.len() + 1) as int) =~= b);
}

/// The trimmed text between spaces and a text that begins and ends with ink.
proof fn lemma_trim_padded(d: Seq<char>)
    requires
        d.len() > 0,
        all_hex(d),
    ensures
        trim("  "@ + d) == d,
{
    reveal_strlit("  ");
    let s = "  "@ + d;
    assert(crate::format::is_hex(d[0]));
    assert(crate::format::is_hex(d[d.len() - 1]));
    crate::text::lemma_lead_is(s, 2);
    assert(crate::text::trim_start(s) =~= d);
    crate::text::lemma_body_is(d, d.len() as int);
    assert(d.take(d.len() as int) =~= d);
}

/// A line break in front of dashes comes no earlier than behind two lines
/// whose second begins with a letter.
proof fn lemma_first_dashes(a: Seq<char>, b: Seq<char>, tail: Seq<char>, end: int)
    requires
        !a.contains('\n'),
        !b.contains('\n'),
        b.len() > 0,
        b[0] == 'c',
        matches_at(a + seq!['\n'] + b + seq!['\n'] + tail, "\n---"@, end),
    ensures
        end >= a.len() + 1 + b.len(),
{
    reveal_strlit("\n---");
    let s = a + seq!['\n'] + b + seq!['\n'] + tail;
    let p = s.subrange(end, end + 4);
    assert(p[0] == '\n' && p[1] == '-');
    assert(s[end] == '\n' && s[end + 1] == '-');
    if end < a.len() {
        assert(s[end] == a[end]);
    } else if end == a.len() {
        assert(s[end + 1] == b[0]);
    } else if end < a.len() + 1 + b.len() {
        assert(s[end] == b[end - a.len() - 1]);
    }
}

/// The value of a second line.
proof fn lemma_second_value(a: Seq<char>, digest: Seq<char>, more: Seq<char>)
    requires
        !a.contains('\n'),
        a.len() > 0,
        a[0] == 's',
        digest.len() > 0,
        all_hex(digest),
        more.len() > 0 ==> more[0] == '\n',
    ensures
        first_value(
            lines(a + seq!['\n'] + ("capture:"@ + ("  "@ + digest)) + more),
            "capture:"@,
        ) == Some(digest),
{
    reveal_strlit("capture:");
    reveal_strlit("  ");
    let b = "capture:"@ + ("  "@ + digest);
    let got = a + seq!['\n'] + b + more;
    let behind = b + more;
    assert(got =~= a + seq!['\n'] + behind);
    assert forall|j: int| 0 <= j < a.len() implies a[j] != '\n' by {}
    lemma_first_line(a, behind);
    assert(lines(got)[0] == strip_cr(a));
    assert(!begins(strip_cr(a), "capture:"@)) by {
        if begins(strip_cr(a), "capture:"@) {
            assert(strip_cr(a).take(8)[0] == 'c');
        }
    }
    assert(lines(got).skip(1) =~= lines(behind));
    assert forall|j: int| 0 <= j < b.len() implies b[j] != '\n' by {
        if j >= 10 {
            assert(b[j] == digest[j - 10]);
            assert(crate::format::is_hex(digest[j - 10]));
        }
    }
    assert(lines(behind).len() > 0 && lines(behind)[0] == b) by {
        if more.len() == 0 {
            assert(behind =~= b);
            crate::lines::lemma_next_char_is(b, '\n', 0, b.len() as int);
        } else {
            assert(behind =~= b + seq!['\n'] + more.skip(1));
            lemma_first_line(b, more.skip(1));
            assert(b.last() == digest[digest.len() - 1]);
            assert(crate::format::is_hex(digest[digest.len() - 1]));
        }
    }
    assert(b.take(8) =~= "capture:"@);
    assert(b.skip(8) =~= "  "@ + digest);
    lemma_trim_padded(digest);
    let key = "capture:"@;
    assert(key.len() == 8 && begins(b, key));
    assert(first_value(lines(behind), key) == Some(digest));
    assert(first_value(lines(got), key) == first_value(lines(behind), key));
}

/// The digest of a note is read back from its text, whatever the item's title,
/// body, sender and links hold: only the source has to be on one line.
pub proof fn notes_carry_their_digest(
    x: Stamped,
    title: Seq<char>,
    digest: Seq<char>,
    at: Seq<char>,
)
    requires
        !x.item.source.contains('\n'),
        digest.len() > 0,
        all_hex(digest),
    ensures
        frontmatter_value(note_text(x, title, digest, at), "capture:"@) == Some(digest),
{
    let a = "source"@ + seq![':'] + crate::inbox::spaces(2) + seq![' '] + x.item.source;
    let b = "capture:"@ + ("  "@ + digest);
    let front = note_front(x, title, digest, at);
    let body = crate::inbox::note_body(x.item, title);
    let (tail, m) = lemma_two_fields(x, title, digest, at);
    let note = note_text(x, title, digest, at);
    let rest = a + seq!['\n'] + b + seq!['\n'] + tail;
    assert(note.skip(4) == rest && begins(note, "---\n"@));
    assert(!a.contains('\n') && a.len() > 0 && a[0] == 's') by {
        reveal_strlit("source");
        assert forall|j: int| 0 <= j < a.len() implies a[j] != '\n' by {
            if j >= 10 {
                assert(a[j] == x.item.source[j - 10]);
            }
        }
    }
    assert(!b.contains('\n') && b.len() > 0 && b[0] == 'c') by {
        reveal_strlit("capture:");
        reveal_strlit("  ");
        assert forall|j: int| 0 <= j < b.len() implies b[j] != '\n' by {
            if j >= 10 {
                assert(b[j] == digest[j - 10]);
                assert(crate::format::is_hex(digest[j - 10]));
            }
        }
    }
    crate::text::lemma_find_from(rest, "\n---"@, 0);
    let end = find(rest, "\n---"@)->0;
    lemma_first_dashes(a, b, tail, end);
    let more = (seq!['\n'] + tail).take(end - a.len() - 1 - b.len());
    assert(rest.take(end) =~= a + seq!['\n'] + b + more);
    lemma_second_value(a, digest, more);
}

/// A note begins with two fields, and its frontmatter ends.
proof fn lemma_two_fields(x: Stamped, title: Seq<char>, digest: Seq<char>, at: Seq<char>) -> (r: (
    Seq<char>,
    int,
))
    ensures
        ({
            let note = note_text(x, title, digest, at);
            let rest = "source"@ + seq![':'] + crate::inbox::spaces(2) + seq![' '] + x.item.source
                + seq!['\n'] + ("capture:"@ + ("  "@ + digest)) + seq!['\n'] + r.0;
            &&& begins(note, "---\n"@)
            &&& note.skip(4) == rest
            &&& matches_at(rest, "\n---"@, r.1)
        }),
{
    reveal_strlit("---\n");
    let note = note_text(x, title, digest, at);
    let front = note_front(x, title, digest, at);
    let body = crate::inbox::note_body(x.item, title);
    let end = "---\n\n"@ + body;
    let one = field("source"@, x.item.source);
    let two = field("capture"@, digest);
    let tail = front.skip((one + two).len() as int);
    lemma_front_ends(x, title, digest, at);
    assert(front =~= one + two + tail) by {
        lemma_front_begins(x, title, digest, at);
    }
    assert(note =~= "---\n"@ + (front + end));
    assert(note.take(4) =~= "---\n"@);
    assert(note.skip(4) =~= front + end);
    let rest = front + end;
    assert(matches_at(rest, "\n---"@, front.len() - 1)) by {
        reveal_strlit("\n---");
        reveal_strlit("---\n\n");
        let n = front.len() as int;
        assert(rest.subrange(n - 1, n + 3) =~= "\n---"@);
    }
    let r0 = tail + end;
    assert("source"@ + seq![':'] + crate::inbox::spaces(2) + seq![' '] + x.item.source + seq!['\n']
        == one) by {
        reveal(field);
        reveal_strlit("source");
        assert(8 - "source"@.len() == 2);
    }
    assert("capture:"@ + ("  "@ + digest) + seq!['\n'] =~= two) by {
        reveal(field);
        reveal_strlit("capture");
        reveal_strlit("capture:");
        reveal_strlit("  ");
    }
    assert(rest =~= one + ("capture:"@ + ("  "@ + digest)) + seq!['\n'] + r0);
    (r0, front.len() - 1)
}

/// The frontmatter begins with the source and the digest.
proof fn lemma_front_begins(x: Stamped, title: Seq<char>, digest: Seq<char>, at: Seq<char>)
    ensures
        ({
            let two = field("source"@, x.item.source) + field("capture"@, digest);
            let front = note_front(x, title, digest, at);
            front.len() >= two.len() && front == two + front.skip(two.len() as int)
        }),
{
    let two = field("source"@, x.item.source) + field("capture"@, digest);
    let front = note_front(x, title, digest, at);
    assert(front.take(two.len() as int) =~= two);
    assert(front =~= two + front.skip(two.len() as int));
}

/// The frontmatter ends with a line feed.
proof fn lemma_front_ends(x: Stamped, title: Seq<char>, digest: Seq<char>, at: Seq<char>)
    ensures
        note_front(x, title, digest, at).len() > 0,
        note_front(x, title, digest, at).last() == '\n',
{
    reveal(field);
}

} // verus!
