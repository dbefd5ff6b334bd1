//! What holds of the notes that captures are written to: nothing of an item is
//! lost, and notes are planned in the order of their moments.

use vstd::prelude::*;
use crate::inbox::{
    all_stamped, base_name, capture_plan, digest_of, field, has_digest, item_digest, note_body,
    note_front, note_text, opt_field, plain_title, planned, record_of, stamped, Item, Stamped,
    StampedItem,
};
use crate::moments::{date_text, moment_text, rfc3339, Moment};
use crate::sort::{lemma_sorted_ascending, lemma_sorted_members, sorted};
use crate::text::{begins, ends, has, matches_at, trim};
use crate::words::{collapsed, slugged};

verus! {

/// A line of a note, between the line feeds around it.
pub open spec fn on_a_line(line: Seq<char>) -> Seq<char> {
    seq!['\n'] + line + seq!['\n']
}

/// Whether a note holds all that there is of an item: its title in the heading,
/// its address on a line of its own below that, its text at the end, whatever
/// else it has, and each thing that is known of it in the frontmatter.
pub open spec fn holds_item(
    note: Seq<char>,
    item: Item,
    title: Seq<char>,
    digest: Seq<char>,
    captured_at: Seq<char>,
) -> bool {
    &&& begins(note, "---\n"@)
    &&& has(note, on_a_line("# "@ + title))
    &&& has(note, on_a_line("source:   "@ + item.source))
    &&& has(note, on_a_line("capture:  "@ + digest))
    &&& has(note, on_a_line("captured: "@ + captured_at))
    &&& has(note, on_a_line("title:    "@ + title))
    &&& item.from matches Some(v) ==> has(note, on_a_line("from:     "@ + collapsed(v)))
    &&& item.url matches Some(v) ==> has(note, on_a_line("url:      "@ + collapsed(v))) && has(
        note,
        on_a_line("# "@ + title) + on_a_line(collapsed(v)),
    )
    &&& item.link matches Some(v) ==> has(note, on_a_line("link:     "@ + collapsed(v)))
    &&& item.due matches Some(d) ==> (date_text(d.year, d.month, d.day, "%Y-%m-%d"@) matches Some(
        v,
    ) ==> has(note, on_a_line("due:      "@ + v)))
    &&& match item.body {
        Some(b) if trim(b).len() > 0 => ends(note, on_a_line(trim(b))),
        _ => match item.url {
            Some(v) => ends(note, on_a_line(collapsed(v))),
            None => ends(note, on_a_line("_(no content)_"@)),
        },
    }
}

/// The text of a field.
proof fn lemma_fields(value: Seq<char>)
    ensures
        field("source"@, value) == "source:   "@ + value + seq!['\n'],
        field("capture"@, value) == "capture:  "@ + value + seq!['\n'],
        field("captured"@, value) == "captured: "@ + value + seq!['\n'],
        field("title"@, value) == "title:    "@ + value + seq!['\n'],
        field("from"@, value) == "from:     "@ + value + seq!['\n'],
        field("url"@, value) == "url:      "@ + value + seq!['\n'],
        field("link"@, value) == "link:     "@ + value + seq!['\n'],
        field("due"@, value) == "due:      "@ + value + seq!['\n'],
{
    reveal(field);
    reveal_strlit("source");
    reveal_strlit("capture");
    reveal_strlit("captured");
    reveal_strlit("title");
    reveal_strlit("from");
    reveal_strlit("url");
    reveal_strlit("link");
    reveal_strlit("due");
    reveal_strlit("source:   ");
    reveal_strlit("capture:  ");
    reveal_strlit("captured: ");
    reveal_strlit("title:    ");
    reveal_strlit("from:     ");
    reveal_strlit("url:      ");
    reveal_strlit("link:     ");
    reveal_strlit("due:      ");
    assert(field("source"@, value) =~= "source:   "@ + value + seq!['\n']);
    assert(field("capture"@, value) =~= "capture:  "@ + value + seq!['\n']);
    assert(field("captured"@, value) =~= "captured: "@ + value + seq!['\n']);
    assert(field("title"@, value) =~= "title:    "@ + value + seq!['\n']);
    assert(field("from"@, value) =~= "from:     "@ + value + seq!['\n']);
    assert(field("url"@, value) =~= "url:      "@ + value + seq!['\n']);
    assert(field("link"@, value) =~= "link:     "@ + value + seq!['\n']);
    assert(field("due"@, value) =~= "due:      "@ + value + seq!['\n']);
}

/// A line that ends a text, or that more follows, behind a line feed.
proof fn lemma_line(a: Seq<char>, line: Seq<char>, b: Seq<char>)
    requires
        a.len() > 0,
        a.last() == '\n',
    ensures
        has(a + (line + seq!['\n']) + b, on_a_line(line)),
{
    let all = a + (line + seq!['\n']) + b;
    let p = on_a_line(line);
    let k = a.len() - 1;
    assert(all.subrange(k, k + p.len()) =~= p);
    assert(matches_at(all, p, k));
}

/// The fields of a note's frontmatter, each of them ending in a line feed.
spec fn front_fields(
    x: Stamped,
    title: Seq<char>,
    digest: Seq<char>,
    at: Seq<char>,
) -> Seq<Seq<char>> {
    seq![
        field("source"@, x.item.source),
        field("capture"@, digest),
        field("captured"@, at),
        field("title"@, title),
        opt_field("from"@, x.item.from),
        opt_field("url"@, x.item.url),
        opt_field("link"@, x.item.link),
        match x.due {
            Some(d) => field("due"@, d),
            None => Seq::empty(),
        },
    ]
}

/// Texts put together.
spec fn glued(parts: Seq<Seq<char>>) -> Seq<char>
    decreases parts.len(),
{
    if parts.len() == 0 {
        Seq::empty()
    } else {
        glued(parts.drop_last()) + parts.last()
    }
}

proof fn lemma_front_glued(x: Stamped, title: Seq<char>, digest: Seq<char>, at: Seq<char>)
    ensures
        note_front(x, title, digest, at) == glued(front_fields(x, title, digest, at)),
{
    let f = front_fields(x, title, digest, at);
    reveal_with_fuel(glued, 9);
    assert(glued(f.take(0)) =~= Seq::<char>::empty());
    assert(f.take(8) =~= f);
    assert(f.take(8).drop_last() =~= f.take(7));
    assert(f.take(7).drop_last() =~= f.take(6));
    assert(f.take(6).drop_last() =~= f.take(5));
    assert(f.take(5).drop_last() =~= f.take(4));
    assert(f.take(4).drop_last() =~= f.take(3));
    assert(f.take(3).drop_last() =~= f.take(2));
    assert(f.take(2).drop_last() =~= f.take(1));
    assert(f.take(1).drop_last() =~= f.take(0));
    assert(glued(f.take(1)) =~= f[0]);
    assert(glued(f.take(2)) == f[0] + f[1]);
    assert(glued(f.take(3)) == f[0] + f[1] + f[2]);
    assert(glued(f.take(4)) == f[0] + f[1] + f[2] + f[3]);
    assert(glued(f.take(5)) == f[0] + f[1] + f[2] + f[3] + f[4]);
    assert(glued(f.take(6)) == f[0] + f[1] + f[2] + f[3] + f[4] + f[5]);
    assert(glued(f.take(7)) == f[0] + f[1] + f[2] + f[3] + f[4] + f[5] + f[6]);
    assert(glued(f.take(8)) == f[0] + f[1] + f[2] + f[3] + f[4] + f[5] + f[6] + f[7]);
}

/// A part of a glued text, behind a line feed.
proof fn lemma_part(parts: Seq<Seq<char>>, i: int, line: Seq<char>, head: Seq<char>, tail: Seq<char>)
    requires
        0 <= i < parts.len(),
        parts[i] == line + seq!['\n'],
        head.len() > 0,
        head.last() == '\n',
        forall|j: int|
            0 <= j < parts.len() && (#[trigger] parts[j]).len() > 0 ==> parts[j].last() == '\n',
    ensures
        has(head + glued(parts) + tail, on_a_line(line)),
    decreases parts.len(),
{
    let rest = parts.drop_last();
    if i < rest.len() {
        assert forall|j: int| 0 <= j < rest.len() && (#[trigger] rest[j]).len() > 0 implies rest[j].last()
            == '\n' by {
            assert(rest[j] == parts[j]);
        }
        lemma_part(rest, i, line, head, parts.last() + tail);
        assert(head + glued(parts) + tail =~= head + glued(rest) + (parts.last() + tail));
    } else {
        lemma_glued_ends(rest);
        let a = head + glued(rest);
        assert(a.last() == '\n') by {
            if glued(rest).len() > 0 {
                assert(a.last() == glued(rest).last());
            } else {
                assert(a =~= head);
            }
        }
        lemma_line(a, line, tail);
        assert(head + glued(parts) + tail =~= a + (line + seq!['\n']) + tail);
    }
}

proof fn lemma_glued_ends(parts: Seq<Seq<char>>)
    requires
        forall|j: int|
            0 <= j < parts.len() && (#[trigger] parts[j]).len() > 0 ==> parts[j].last() == '\n',
    ensures
        glued(parts).len() > 0 ==> glued(parts).last() == '\n',
    decreases parts.len(),
{
    if parts.len() > 0 {
        let rest = parts.drop_last();
        assert forall|j: int| 0 <= j < rest.len() && (#[trigger] rest[j]).len() > 0 implies rest[j].last()
            == '\n' by {
            assert(rest[j] == parts[j]);
        }
        lemma_glued_ends(rest);
        let last = parts[parts.len() - 1];
        if last.len() > 0 {
            assert(glued(parts).last() == last.last());
        } else {
            assert(glued(parts) =~= glued(rest));
        }
    }
}

/// A note holds all of its item.
#[verifier::spinoff_prover]
pub proof fn notes_hold_their_item(
    item: Item,
    title: Seq<char>,
    digest: Seq<char>,
    captured_at: Seq<char>,
)
    ensures
        holds_item(
            note_text(stamped(item, captured_at), title, digest, captured_at),
            item,
            title,
            digest,
            captured_at,
        ),
{
    let x = stamped(item, captured_at);
    let f = front_fields(x, title, digest, captured_at);
    let head = "---\n"@;
    let body = note_body(item, title);
    let tail = "---\n\n"@ + body;
    let note = note_text(x, title, digest, captured_at);
    reveal_strlit("---\n");
    reveal_strlit("---\n\n");
    lemma_front_glued(x, title, digest, captured_at);
    assert(note =~= head + glued(f) + tail);
    assert(note.subrange(0, 4) =~= head);
    lemma_fields(item.source);
    lemma_fields(digest);
    lemma_fields(captured_at);
    lemma_fields(title);
    if item.from is Some {
        lemma_fields(collapsed(item.from->0));
    }
    if item.url is Some {
        lemma_fields(collapsed(item.url->0));
    }
    if item.link is Some {
        lemma_fields(collapsed(item.link->0));
    }
    if x.due is Some {
        lemma_fields(x.due->0);
    }
    assert forall|j: int| 0 <= j < f.len() && (#[trigger] f[j]).len() > 0 implies f[j].last()
        == '\n' by {}
    lemma_part(f, 0, "source:   "@ + item.source, head, tail);
    lemma_part(f, 1, "capture:  "@ + digest, head, tail);
    lemma_part(f, 2, "captured: "@ + captured_at, head, tail);
    lemma_part(f, 3, "title:    "@ + title, head, tail);
    if item.from is Some {
        lemma_part(f, 4, "from:     "@ + collapsed(item.from->0), head, tail);
    }
    if item.url is Some {
        lemma_part(f, 5, "url:      "@ + collapsed(item.url->0), head, tail);
    }
    if item.link is Some {
        lemma_part(f, 6, "link:     "@ + collapsed(item.link->0), head, tail);
    }
    if x.due is Some {
        lemma_part(f, 7, "due:      "@ + x.due->0, head, tail);
    }
    lemma_below(item, title, head + glued(f) + "---\n\n"@);
    assert(note =~= (head + glued(f) + "---\n\n"@) + body);
}

/// The part of a note below the frontmatter.
#[verifier::spinoff_prover]
proof fn lemma_below(item: Item, title: Seq<char>, front: Seq<char>)
    requires
        front.len() > 0,
        front.last() == '\n',
    ensures
        ({
            let note = front + note_body(item, title);
            &&& has(note, on_a_line("# "@ + title))
            &&& item.url matches Some(v) ==> has(
                note,
                on_a_line("# "@ + title) + on_a_line(collapsed(v)),
            )
            &&& match item.body {
                Some(b) if trim(b).len() > 0 => ends(note, on_a_line(trim(b))),
                _ => match item.url {
                    Some(v) => ends(note, on_a_line(collapsed(v))),
                    None => ends(note, on_a_line("_(no content)_"@)),
                },
            }
        }),
{
    reveal_strlit("# ");
    reveal_strlit("\n_(no content)_\n");
    reveal_strlit("_(no content)_");
    let body = note_body(item, title);
    let note = front + body;
    let heading = "# "@ + title;
    let n = heading.len() as int;
    let rest = body.skip(n + 1);
    assert(body =~= heading + seq!['\n'] + rest);
    assert(note =~= front + (heading + seq!['\n']) + rest);
    lemma_line(front, heading, rest);
    if item.url is Some {
        let v = collapsed(item.url->0);
        let p = on_a_line(heading) + on_a_line(v);
        let k = front.len() - 1;
        assert(note.subrange(k, k + p.len()) =~= p);
        assert(matches_at(note, p, k));
    }
    let last = match item.body {
        Some(b) if trim(b).len() > 0 => on_a_line(trim(b)),
        _ => match item.url {
            Some(v) => on_a_line(collapsed(v)),
            None => on_a_line("_(no content)_"@),
        },
    };
    assert("\n_(no content)_\n"@ =~= on_a_line("_(no content)_"@));
    assert(note.skip(note.len() - last.len()) =~= last);
    assert(note.subrange(note.len() - last.len(), note.len() as int) =~= last);
}

/// Which items the files of a plan are for.
proof fn lemma_files(
    items: Seq<Stamped>,
    account: Seq<char>,
    imported: Seq<Seq<char>>,
    vault: Seq<Seq<char>>,
    taken: Seq<Seq<char>>,
    dir: Seq<char>,
    at: Seq<char>,
    i: int,
) -> (k: int)
    requires
        0 <= i < planned(items, account, imported, vault, taken, dir, at).files.len(),
    ensures
        0 <= k < items.len(),
        ({
            let file = planned(items, account, imported, vault, taken, dir, at).files[i];
            let x = items[k];
            &&& file.digest == digest_of(account, x)
            &&& file.content == note_text(x, plain_title(x.item.title), file.digest, at)
            &&& begins(file.stem, base_name(x))
            &&& !imported.contains(file.digest)
            &&& !vault.contains(file.digest)
            &&& !has_digest(items.take(k), account, file.digest)
        }),
    decreases items.len(),
{
    let rest = items.drop_last();
    let p = planned(rest, account, imported, vault, taken, dir, at);
    let plan = planned(items, account, imported, vault, taken, dir, at);
    if i < p.files.len() {
        let k = lemma_files(rest, account, imported, vault, taken, dir, at, i);
        assert(plan.files[i] == p.files[i]);
        assert(rest.take(k) =~= items.take(k));
        k
    } else {
        let k = items.len() - 1;
        assert(items.take(k) =~= rest);
        let base = base_name(items[k]);
        let stem = plan.files[i].stem;
        assert(stem.subrange(0, base.len() as int) =~= base);
        k
    }
}

/// Files stand in the order of their items.
proof fn lemma_files_in_order(
    items: Seq<Stamped>,
    account: Seq<char>,
    imported: Seq<Seq<char>>,
    vault: Seq<Seq<char>>,
    taken: Seq<Seq<char>>,
    dir: Seq<char>,
    at: Seq<char>,
    i: int,
    j: int,
)
    requires
        0 <= i < j < planned(items, account, imported, vault, taken, dir, at).files.len(),
    ensures
        ({
            let files = planned(items, account, imported, vault, taken, dir, at).files;
            exists|a: int, b: int|
                0 <= a < b < items.len() && #[trigger] digest_of(account, items[a])
                    == files[i].digest && #[trigger] digest_of(account, items[b])
                    == files[j].digest && !has_digest(items.take(a), account, files[i].digest)
                    && !has_digest(items.take(b), account, files[j].digest)
        }),
    decreases items.len(),
{
    let rest = items.drop_last();
    let p = planned(rest, account, imported, vault, taken, dir, at);
    let plan = planned(items, account, imported, vault, taken, dir, at);
    if j < p.files.len() {
        lemma_files_in_order(rest, account, imported, vault, taken, dir, at, i, j);
        assert(plan.files[i] == p.files[i] && plan.files[j] == p.files[j]);
        let (a, b) = choose|a: int, b: int|
            0 <= a < b < rest.len() && #[trigger] digest_of(account, rest[a]) == p.files[i].digest
                && #[trigger] digest_of(account, rest[b]) == p.files[j].digest && !has_digest(
                rest.take(a),
                account,
                p.files[i].digest,
            ) && !has_digest(rest.take(b), account, p.files[j].digest);
        assert(rest.take(a) =~= items.take(a) && rest.take(b) =~= items.take(b));
        assert(digest_of(account, items[a]) == plan.files[i].digest);
        assert(digest_of(account, items[b]) == plan.files[j].digest);
    } else {
        let a = lemma_files(rest, account, imported, vault, taken, dir, at, i);
        assert(plan.files[i] == p.files[i]);
        let b = items.len() - 1;
        assert(items.take(b) =~= rest);
        assert(rest.take(a) =~= items.take(a));
        assert(digest_of(account, items[a]) == plan.files[i].digest);
        assert(digest_of(account, items[b]) == plan.files[j].digest);
    }
}

/// The moment that a file is named by, as it is written: the item's own, else
/// that of the capture.
pub open spec fn written_moment(item: Item, captured_at: Seq<char>) -> Seq<char> {
    let written = match item.occurred_at {
        Some(m) => moment_text(m.seconds, m.offset, "%Y-%m-%d-%H%M"@),
        None => match rfc3339(captured_at) {
            Some(m) => moment_text(m.0, m.2, "%Y-%m-%d-%H%M"@),
            None => None,
        },
    };
    if written is Some {
        written->0
    } else {
        "undated"@
    }
}

/// Every planned file is for one of the items, under the item's own digest: it
/// holds all of the item, and its name begins with the item's moment and the
/// slug of its title.
#[verifier::spinoff_prover]
#[verifier::rlimit(40)]
pub proof fn planned_notes_hold_their_item(
    items: Seq<Item>,
    account: Seq<char>,
    imported: Seq<Seq<char>>,
    vault: Seq<Seq<char>>,
    taken: Seq<Seq<char>>,
    dir: Seq<char>,
    captured_at: Seq<char>,
    i: int,
)
    requires
        0 <= i < capture_plan(items, account, imported, vault, taken, dir, captured_at).files.len(),
    ensures
        ({
            let file = capture_plan(
                items,
                account,
                imported,
                vault,
                taken,
                dir,
                captured_at,
            ).files[i];
            exists|k: int|
                0 <= k < items.len() && {
                    let item = #[trigger] items[k];
                    &&& file.digest == item_digest(account, item.source, item.external_id)
                    &&& holds_item(
                        file.content,
                        item,
                        plain_title(item.title),
                        file.digest,
                        captured_at,
                    )
                    &&& begins(
                        file.stem,
                        written_moment(item, captured_at) + seq!['-'] + slugged(
                            plain_title(item.title),
                            "item"@,
                        ),
                    )
                }
        }),
{
    let all = all_stamped(items, captured_at);
    let s = sorted::<StampedItem>(all);
    let n = lemma_files(s, account, imported, vault, taken, dir, captured_at, i);
    lemma_sorted_members::<StampedItem>(all, s[n]);
    assert(s.contains(s[n]));
    let k = choose|k: int| 0 <= k < all.len() && all[k] == s[n];
    let file = planned(s, account, imported, vault, taken, dir, captured_at).files[i];
    notes_hold_their_item(
        items[k],
        plain_title(items[k].title),
        file.digest,
        captured_at,
    );
    assert(s[n] == stamped(items[k], captured_at));
}

/// Whether a moment is not after another, in time; one that is not known is
/// before all others.
pub open spec fn not_after(a: Option<Moment>, b: Option<Moment>) -> bool {
    match (a, b) {
        (None, _) => true,
        (Some(_), None) => false,
        (Some(x), Some(y)) => x.seconds * 0x1_0000_0000 + x.nanos <= y.seconds * 0x1_0000_0000
            + y.nanos,
    }
}

/// Notes are planned in the order of their items' moments, wherever on the earth
/// these were written down.
#[verifier::spinoff_prover]
#[verifier::rlimit(40)]
pub proof fn notes_are_planned_in_order(
    items: Seq<Item>,
    account: Seq<char>,
    imported: Seq<Seq<char>>,
    vault: Seq<Seq<char>>,
    taken: Seq<Seq<char>>,
    dir: Seq<char>,
    captured_at: Seq<char>,
    i: int,
    j: int,
)
    requires
        0 <= i < j < capture_plan(
            items,
            account,
            imported,
            vault,
            taken,
            dir,
            captured_at,
        ).files.len(),
    ensures
        ({
            let files = capture_plan(
                items,
                account,
                imported,
                vault,
                taken,
                dir,
                captured_at,
            ).files;
            exists|a: int, b: int|
                0 <= a < items.len() && 0 <= b < items.len() && {
                    let x = #[trigger] items[a];
                    let y = #[trigger] items[b];
                    &&& item_digest(account, x.source, x.external_id) == files[i].digest
                    &&& item_digest(account, y.source, y.external_id) == files[j].digest
                    &&& not_after(x.occurred_at, y.occurred_at)
                }
        }),
{
    let all = all_stamped(items, captured_at);
    let s = sorted::<StampedItem>(all);
    lemma_sorted_ascending::<StampedItem>(all);
    lemma_files_in_order(s, account, imported, vault, taken, dir, captured_at, i, j);
    let files = planned(s, account, imported, vault, taken, dir, captured_at).files;
    let (p, q) = choose|p: int, q: int|
        0 <= p < q < s.len() && #[trigger] digest_of(account, s[p]) == files[i].digest
            && #[trigger] digest_of(account, s[q]) == files[j].digest && !has_digest(
            s.take(p),
            account,
            files[i].digest,
        ) && !has_digest(s.take(q), account, files[j].digest);
    lemma_sorted_members::<StampedItem>(all, s[p]);
    lemma_sorted_members::<StampedItem>(all, s[q]);
    assert(s.contains(s[p]) && s.contains(s[q]));
    let a = choose|a: int| 0 <= a < all.len() && all[a] == s[p];
    let b = choose|b: int| 0 <= b < all.len() && all[b] == s[q];
    assert(all[a].item == items[a] && all[b].item == items[b]);
    assert(!crate::moments::earlier(s[q].item.occurred_at, s[p].item.occurred_at));
}

/// Which items the records of a plan are for.
proof fn lemma_records(
    items: Seq<Stamped>,
    account: Seq<char>,
    imported: Seq<Seq<char>>,
    vault: Seq<Seq<char>>,
    taken: Seq<Seq<char>>,
    dir: Seq<char>,
    at: Seq<char>,
    i: int,
) -> (k: int)
    requires
        0 <= i < planned(items, account, imported, vault, taken, dir, at).records.len(),
    ensures
        0 <= k < items.len(),
        planned(items, account, imported, vault, taken, dir, at).records[i] == record_of(
            account,
            items[k],
        ),
    decreases items.len(),
{
    let rest = items.drop_last();
    let p = planned(rest, account, imported, vault, taken, dir, at);
    let plan = planned(items, account, imported, vault, taken, dir, at);
    if i < p.records.len() {
        let k = lemma_records(rest, account, imported, vault, taken, dir, at, i);
        assert(plan.records[i] == p.records[i]);
        k
    } else {
        items.len() - 1
    }
}

/// Every record is of one of the items: its digest, where it came from, its id
/// there, and its title as the note has it.
pub proof fn records_say_what_was_captured(
    items: Seq<Item>,
    account: Seq<char>,
    imported: Seq<Seq<char>>,
    vault: Seq<Seq<char>>,
    taken: Seq<Seq<char>>,
    dir: Seq<char>,
    captured_at: Seq<char>,
    i: int,
)
    requires
        0 <= i < capture_plan(
            items,
            account,
            imported,
            vault,
            taken,
            dir,
            captured_at,
        ).records.len(),
    ensures
        ({
            let r = capture_plan(
                items,
                account,
                imported,
                vault,
                taken,
                dir,
                captured_at,
            ).records[i];
            exists|k: int|
                0 <= k < items.len() && {
                    let item = #[trigger] items[k];
                    &&& r.digest == item_digest(account, item.source, item.external_id)
                    &&& r.source == item.source
                    &&& r.external_id == item.external_id
                    &&& r.title == plain_title(item.title)
                }
        }),
{
    let all = all_stamped(items, captured_at);
    let s = sorted::<StampedItem>(all);
    let n = lemma_records(s, account, imported, vault, taken, dir, captured_at, i);
    lemma_sorted_members::<StampedItem>(all, s[n]);
    assert(s.contains(s[n]));
    let k = choose|k: int| 0 <= k < all.len() && all[k] == s[n];
    assert(s[n] == stamped(items[k], captured_at));
}

} // verus!
