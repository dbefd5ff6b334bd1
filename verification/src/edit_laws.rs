//! What holds of edit lists: what they do to the lines of a note.

use vstd::prelude::*;
use crate::calendar::{insert_at, inserts_at, Edit, LineEdit};
use crate::day_plan::{first_row, hash_run, heading, lemma_hash_run, lemma_hash_run_is};
use crate::line_laws::{lemma_box_prefix, lemma_lead_append};
use crate::lines::strip_cr;
use crate::reconcile::{edit_texts, edited, edited_rows, inserted, past, rewritten};
use crate::sort::{put, sorted};
use crate::synced_line::{
    box_end, lemma_synced, lemma_text_offset, line_marker, synced, text_offset, Synced,
};
use crate::text::{
    all_white, body_len, is_white, lead, lemma_body, lemma_body_is, lemma_lead, trim, trim_end,
    trim_start,
};

verus! {

/// Putting an edit in its place does not change what is put before a row, nor
/// what stands in it.
proof fn lemma_put_edit(s: Seq<Edit>, x: Edit, row: int, line: Seq<char>)
    ensures
        inserted(put::<LineEdit>(s, x), row) == inserted(s.push(x), row),
        rewritten(put::<LineEdit>(s, x), row, line) == rewritten(s.push(x), row, line),
    decreases s.len(),
{
    if s.len() > 0 && x.row < s.last().row {
        let rest = s.drop_last();
        lemma_put_edit(rest, x, row, line);
        let p = put::<LineEdit>(rest, x);
        assert(p.push(s.last()).drop_last() =~= p);
        assert(rest.push(x).drop_last() =~= rest);
        assert(s.push(x).drop_last() =~= s);
        assert(put::<LineEdit>(s, x) == p.push(s.last()));
        assert(inserted(rest.push(x), row) == if !x.replaces && x.row == row {
            inserted(rest, row).push(x.text)
        } else {
            inserted(rest, row)
        });
        assert(inserted(s.push(x), row) == if !x.replaces && x.row == row {
            inserted(s, row).push(x.text)
        } else {
            inserted(s, row)
        });
        assert(rewritten(rest.push(x), row, line) == if x.replaces && x.row == row {
            x.text
        } else {
            rewritten(rest, row, line)
        });
        assert(rewritten(s.push(x), row, line) == if x.replaces && x.row == row {
            x.text
        } else {
            rewritten(s, row, line)
        });
        assert(rewritten(p.push(s.last()), row, line) == if s.last().replaces && s.last().row
            == row {
            s.last().text
        } else {
            rewritten(p, row, line)
        });
    }
}

/// Sorting by row does not change what edits put before a row, nor what stands
/// in it after them.
pub proof fn lemma_sorted_edits(s: Seq<Edit>, row: int, line: Seq<char>)
    ensures
        inserted(sorted::<LineEdit>(s), row) == inserted(s, row),
        rewritten(sorted::<LineEdit>(s), row, line) == rewritten(s, row, line),
    decreases s.len(),
{
    if s.len() > 0 {
        let rest = s.drop_last();
        lemma_sorted_edits(rest, row, line);
        let r = sorted::<LineEdit>(rest);
        lemma_put_edit(r, s.last(), row, line);
        assert(r.push(s.last()).drop_last() =~= r);
    }
}

/// Whether the edits lie between two rows, and rewrite none of the last.
pub open spec fn within(s: Seq<Edit>, from: int, to: int) -> bool {
    forall|i: int|
        0 <= i < s.len() ==> from <= (#[trigger] s[i]).row <= to && (s[i].replaces ==> s[i].row
            < to)
}

proof fn lemma_put_within(s: Seq<Edit>, x: Edit, from: int, to: int)
    requires
        within(s, from, to),
        within(seq![x], from, to),
    ensures
        within(put::<LineEdit>(s, x), from, to),
    decreases s.len(),
{
    assert(seq![x][0] == x);
    if s.len() > 0 && x.row < s.last().row {
        let rest = s.drop_last();
        assert(within(rest, from, to)) by {
            assert forall|i: int| 0 <= i < rest.len() implies from <= (#[trigger] rest[i]).row <= to
                && (rest[i].replaces ==> rest[i].row < to) by {
                assert(s[i] == rest[i]);
            }
        }
        lemma_put_within(rest, x, from, to);
        let p = put::<LineEdit>(rest, x);
        let all = p.push(s.last());
        assert forall|i: int| 0 <= i < all.len() implies from <= (#[trigger] all[i]).row <= to && (
        all[i].replaces ==> all[i].row < to) by {
            if i < p.len() {
                assert(all[i] == p[i]);
            } else {
                assert(all[i] == s[s.len() - 1]);
            }
        }
    } else {
        let all = s.push(x);
        assert forall|i: int| 0 <= i < all.len() implies from <= (#[trigger] all[i]).row <= to && (
        all[i].replaces ==> all[i].row < to) by {
            if i < s.len() {
                assert(all[i] == s[i]);
            }
        }
    }
}

/// Sorting keeps edits where they lie.
pub proof fn lemma_sorted_within(s: Seq<Edit>, from: int, to: int)
    requires
        within(s, from, to),
    ensures
        within(sorted::<LineEdit>(s), from, to),
    decreases s.len(),
{
    if s.len() > 0 {
        let rest = s.drop_last();
        assert forall|i: int| 0 <= i < rest.len() implies from <= (#[trigger] rest[i]).row <= to && (
        rest[i].replaces ==> rest[i].row < to) by {
            assert(s[i] == rest[i]);
        }
        lemma_sorted_within(rest, from, to);
        assert(s[s.len() - 1] == s.last());
        assert(within(seq![s.last()], from, to));
        lemma_put_within(sorted::<LineEdit>(rest), s.last(), from, to);
    }
}

/// Edits that all lie in one row are sorted.
proof fn lemma_sorted_one_row(s: Seq<Edit>, row: int)
    requires
        forall|i: int| 0 <= i < s.len() ==> (#[trigger] s[i]).row == row,
    ensures
        sorted::<LineEdit>(s) == s,
    decreases s.len(),
{
    if s.len() > 0 {
        let rest = s.drop_last();
        assert forall|i: int| 0 <= i < rest.len() implies (#[trigger] rest[i]).row == row by {
            assert(s[i] == rest[i]);
        }
        lemma_sorted_one_row(rest, row);
        assert(s[s.len() - 1].row == row);
        if rest.len() > 0 {
            assert(rest[rest.len() - 1].row == row);
        }
        assert(rest.push(s.last()) =~= s);
    }
}

/// The insertions past the last row are those at the row behind it.
proof fn lemma_past(s: Seq<Edit>, n: int)
    requires
        within(s, 0, n),
    ensures
        edit_texts(past(s, n)) == inserted(s, n),
        forall|i: int| 0 <= i < past(s, n).len() ==> (#[trigger] past(s, n)[i]).row == n,
    decreases s.len(),
{
    if s.len() > 0 {
        let rest = s.drop_last();
        assert forall|i: int| 0 <= i < rest.len() implies 0 <= (#[trigger] rest[i]).row <= n && (
        rest[i].replaces ==> rest[i].row < n) by {
            assert(s[i] == rest[i]);
        }
        lemma_past(rest, n);
        let x = s.last();
        assert(s[s.len() - 1] == x);
        if !x.replaces && x.row >= n {
            let p = past(rest, n);
            assert(edit_texts(p.push(x)) =~= edit_texts(p).push(x.text));
            assert forall|i: int| 0 <= i < past(s, n).len() implies (#[trigger] past(
                s,
                n,
            )[i]).row == n by {
                if i < p.len() {
                    assert(past(s, n)[i] == p[i]);
                }
            }
        }
    } else {
        assert(edit_texts(past(s, n)) =~= inserted(s, n));
    }
}

/// Edits do nothing to rows that they do not lie in.
pub proof fn lemma_untouched(s: Seq<Edit>, from: int, to: int, row: int, line: Seq<char>)
    requires
        within(s, from, to),
    ensures
        row < from || to < row ==> inserted(s, row) == Seq::<Seq<char>>::empty(),
        row < from || to <= row ==> rewritten(s, row, line) == line,
    decreases s.len(),
{
    if s.len() > 0 {
        let rest = s.drop_last();
        assert forall|i: int| 0 <= i < rest.len() implies from <= (#[trigger] rest[i]).row <= to && (
        rest[i].replaces ==> rest[i].row < to) by {
            assert(s[i] == rest[i]);
        }
        lemma_untouched(rest, from, to, row, line);
        assert(s[s.len() - 1] == s.last());
    }
}

/// The rows from `from` on, up to `k`, with the edits applied.
pub open spec fn mid(lines: Seq<Seq<char>>, s: Seq<Edit>, from: int, k: int) -> Seq<Seq<char>>
    decreases k - from,
{
    if k <= from {
        Seq::empty()
    } else {
        (mid(lines, s, from, k - 1) + inserted(s, k - 1)).push(
            rewritten(s, k - 1, lines[k - 1]),
        )
    }
}

/// Edits between two rows change nothing else.
pub proof fn lemma_edited_rows(
    lines: Seq<Seq<char>>,
    s: Seq<Edit>,
    from: int,
    to: int,
    k: int,
)
    requires
        0 <= from <= to <= lines.len(),
        0 <= k <= lines.len(),
        within(s, from, to),
    ensures
        k <= from ==> edited_rows(lines, s, k) == lines.take(k),
        from <= k <= to ==> edited_rows(lines, s, k) == lines.take(from) + mid(lines, s, from, k),
        to < k ==> edited_rows(lines, s, k) == lines.take(from) + mid(lines, s, from, to)
            + inserted(s, to) + lines.subrange(to, k),
    decreases k,
{
    if k > 0 {
        lemma_edited_rows(lines, s, from, to, k - 1);
        lemma_untouched(s, from, to, k - 1, lines[k - 1]);
        if k <= from {
            assert(edited_rows(lines, s, k) =~= lines.take(k));
        } else if k <= to {
            assert(edited_rows(lines, s, k) =~= lines.take(from) + mid(lines, s, from, k));
        } else {
            assert(edited_rows(lines, s, k) =~= lines.take(from) + mid(lines, s, from, to)
                + inserted(s, to) + lines.subrange(to, k));
        }
    }
    if k == from {
        assert(edited_rows(lines, s, k) =~= lines.take(from) + mid(lines, s, from, k));
    }
}

/// Edits between two rows change nothing else.
pub proof fn lemma_edited(lines: Seq<Seq<char>>, s: Seq<Edit>, from: int, to: int)
    requires
        0 <= from <= to <= lines.len(),
        within(s, from, to),
    ensures
        edited(lines, s) == lines.take(from) + (mid(lines, s, from, to) + inserted(s, to))
            + lines.skip(to),
{
    let n = lines.len() as int;
    lemma_edited_rows(lines, s, from, to, n);
    assert(within(s, 0, n));
    lemma_past(s, n);
    lemma_sorted_one_row(past(s, n), n);
    lemma_untouched(s, from, to, n, Seq::empty());
    if to < n {
        assert(edited(lines, s) =~= lines.take(from) + (mid(lines, s, from, to) + inserted(s, to))
            + lines.skip(to));
    } else {
        assert(edited(lines, s) =~= lines.take(from) + (mid(lines, s, from, to) + inserted(s, to))
            + lines.skip(to));
    }
}

/// What two edit lists in a row do.
pub proof fn lemma_concat_edits(a: Seq<Edit>, b: Seq<Edit>, row: int, line: Seq<char>)
    ensures
        inserted(a + b, row) == inserted(a, row) + inserted(b, row),
        rewritten(a + b, row, line) == rewritten(b, row, rewritten(a, row, line)),
    decreases b.len(),
{
    if b.len() == 0 {
        assert(a + b =~= a);
        assert(inserted(a, row) + inserted(b, row) =~= inserted(a, row));
    } else {
        let rest = b.drop_last();
        lemma_concat_edits(a, rest, row, line);
        assert((a + b).drop_last() =~= a + rest);
        assert((a + b).last() == b.last());
        assert(inserted(a + b, row) =~= inserted(a, row) + inserted(b, row));
    }
}

/// Lines put before one row.
pub proof fn lemma_block(row: int, block: Seq<Seq<char>>)
    ensures
        inserted(inserts_at(row, block), row) == block,
        within(inserts_at(row, block), row, row),
        sorted::<LineEdit>(inserts_at(row, block)) == inserts_at(row, block),
    decreases block.len(),
{
    let s = inserts_at(row, block);
    if block.len() > 0 {
        let rest = block.drop_last();
        lemma_block(row, rest);
        assert(s.drop_last() =~= inserts_at(row, rest));
        assert(s.last() == insert_at(row, block.last()));
        assert(inserted(s, row) =~= block);
    } else {
        assert(inserted(s, row) =~= block);
    }
    lemma_sorted_one_row(s, row);
}

/// White space behind a text does not change what it is trimmed to.
pub proof fn lemma_trim_append(x: Seq<char>, g: Seq<char>)
    requires
        all_white(g),
    ensures
        trim(x + g) == trim(x),
{
    lemma_lead(x);
    lemma_lead_append(x, g);
    let t = trim_start(x);
    if lead(x) < x.len() {
        let u = trim_start(x + g);
        assert(u =~= t + g);
        lemma_body(t);
        let n = body_len(t) as int;
        assert forall|i: int| n <= i < u.len() implies is_white(#[trigger] u[i]) by {
            if i < t.len() {
                assert(is_white(t[i]));
            } else {
                assert(is_white(g[i - t.len()]));
            }
        }
        assert(n > 0 ==> u[n - 1] == t[n - 1]);
        lemma_body_is(u, n);
        assert(u.take(n) =~= t.take(n));
    } else {
        assert(trim_start(x + g) =~= Seq::<char>::empty());
        assert(t =~= Seq::<char>::empty());
    }
}

/// A carriage return at its end does not make a line another heading.
pub proof fn lemma_heading_cr(l: Seq<char>)
    ensures
        heading(strip_cr(l)) == heading(l),
{
    if l.len() > 0 && l.last() == '\r' {
        let m = l.drop_last();
        lemma_hash_run(m);
        let k = hash_run(m) as int;
        assert forall|i: int| 0 <= i < k implies l[i] == '#' by {
            assert(m[i] == '#');
        }
        if k < m.len() {
            assert(l[k] == m[k]);
        }
        lemma_hash_run_is(l, k);
        let g = seq!['\r'];
        assert(is_white('\r'));
        assert(l.skip(k) =~= m.skip(k) + g);
        lemma_trim_append(m.skip(k), g);
    }
}

/// A carriage return at its end does not make a line another synced line.
#[verifier::spinoff_prover]
pub proof fn lemma_synced_cr(l: Seq<char>)
    ensures
        match synced(l) {
            Some(p) => synced(strip_cr(l)) == Some(
                Synced {
                    line: strip_cr(l),
                    id: p.id,
                    suffix: p.suffix,
                    start: p.start,
                    token: p.token,
                    text: p.text,
                    marker: p.marker,
                },
            ),
            None => synced(strip_cr(l)) is None,
        },
{
    if l.len() > 0 && l.last() == '\r' {
        let m = l.drop_last();
        assert(is_white('\r'));
        lemma_body(m);
        let n = body_len(m) as int;
        assert forall|i: int| n <= i < l.len() implies is_white(#[trigger] l[i]) by {
            if i < m.len() {
                assert(is_white(m[i]));
            }
        }
        assert(n > 0 ==> l[n - 1] == m[n - 1]);
        lemma_body_is(l, n);
        assert(trim_end(l) =~= trim_end(m));
        assert(line_marker(l) == line_marker(m)) by {
            reveal(line_marker);
        }
        lemma_text_offset(l);
        lemma_text_offset(m);
        if let Some(end) = box_end(l) {
            assert(end <= m.len());
            assert(m.take(end) =~= l.take(end));
            lemma_box_prefix(l, m, end);
        }
        if let Some(end) = box_end(m) {
            assert(m.take(end) =~= l.take(end));
            lemma_box_prefix(m, l, end);
        }
        assert(box_end(l) == box_end(m));
        if let Some((at, id, suffix)) = line_marker(l) {
            crate::line_laws::lemma_marker_text(l);
            crate::line_laws::lemma_mark_chars(id, suffix);
            assert(l[at] == '<') by {
                assert(l.subrange(at, n)[0] == crate::line_laws::mark(id, suffix)[0]);
            }
            assert(m[at] == '<');
            if let Some(end) = box_end(l) {
                assert(end <= at);
                let a = m.skip(end);
                assert(l.skip(end) =~= a + seq!['\r']);
                lemma_lead_append(a, seq!['\r']);
                lemma_lead(a);
                if lead(a) == a.len() {
                    assert(is_white(a[at - end]));
                }
                assert(text_offset(l) == text_offset(m)) by {
                    reveal(text_offset);
                }
                if let Some(offset) = text_offset(l) {
                    lemma_synced(l);
                    assert(l.subrange(offset, at) =~= m.subrange(offset, at));
                }
            } else {
                assert(text_offset(l) is None && text_offset(m) is None) by {
                    reveal(text_offset);
                }
            }
        }
    }
}

/// No synced line is a heading.
pub proof fn lemma_synced_no_heading(l: Seq<char>)
    requires
        synced(l) is Some,
    ensures
        heading(l) is None,
{
    lemma_text_offset(l);
    assert(text_offset(l) is Some);
    reveal(box_end);
    lemma_lead(l);
    lemma_hash_run(l);
    if lead(l) > 0 {
        assert(is_white(l[0]));
    }
    lemma_hash_run_is(l, 0);
}

/// Where two notes agree line by line on a predicate, its first row is the
/// same.
pub proof fn lemma_first_row_same(
    a: Seq<Seq<char>>,
    b: Seq<Seq<char>>,
    pred: spec_fn(Seq<char>) -> bool,
    from: int,
    to: int,
)
    requires
        forall|r: int| from <= r < to ==> pred(#[trigger] a[r]) == pred(b[r]),
    ensures
        first_row(a, pred, from, to) == first_row(b, pred, from, to),
    decreases to - from,
{
    if from < to {
        assert(pred(a[from]) == pred(b[from]));
        lemma_first_row_same(a, b, pred, from + 1, to);
    }
}

} // verus!
