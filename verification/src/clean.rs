//! Cleaning foreign text before it enters a note.

use vstd::prelude::*;
use vstd::slice::slice_subrange;
use crate::lines::{join, joined, slice_to_chars, texts};
use crate::text::{
    append, find, is_white, lemma_find_from, matches_at, position, trim, trimmed,
};

verus! {

/// `s` with every occurrence of `p`, read from the left, taken out.
pub open spec fn without(s: Seq<char>, p: Seq<char>) -> Seq<char>
    decreases s.len(),
{
    match find(s, p) {
        Some(at) => if p.len() > 0 && 0 <= at && at + p.len() <= s.len() {
            s.take(at) + without(s.skip(at + p.len()), p)
        } else {
            s
        },
        None => s,
    }
}

/// `s` with every occurrence of `p` taken out.
pub fn removed(s: &[char], p: &[char]) -> (out: Vec<char>)
    requires
        p@.len() > 0,
    ensures
        out@ == without(s@, p@),
{
    let mut out: Vec<char> = Vec::new();
    let mut at: usize = 0;
    assert(s@.skip(0) =~= s@);
    assert(out@ + without(s@.skip(0), p@) =~= without(s@, p@));
    loop
        invariant
            at <= s@.len(),
            p@.len() > 0,
            out@ + without(s@.skip(at as int), p@) == without(s@, p@),
        decreases s@.len() - at,
    {
        let rest = slice_subrange(s, at, s.len());
        assert(rest@ =~= s@.skip(at as int));
        match position(rest, p) {
            Some(i) => {
                proof {
                    crate::text::lemma_find_from(rest@, p@, 0);
                    assert(rest@.skip(i + p@.len()) =~= s@.skip(at + i + p@.len()));
                }
                let ghost before = out@;
                let n: usize = rest.len();
                append(&mut out, slice_subrange(rest, 0, i));
                assert(rest@.take(i as int) =~= rest@.subrange(0, i as int));
                at = at + i + p.len();
                assert(out@ + without(s@.skip(at as int), p@) =~= before + without(rest@, p@));
            },
            None => {
                append(&mut out, rest);
                return out;
            },
        }
    }
}

/// Whether `p` stands nowhere in `s`.
pub open spec fn lacks(s: Seq<char>, p: Seq<char>) -> bool {
    forall|at: int| !#[trigger] matches_at(s, p, at)
}

/// `s` with `p` taken out until none is left.
pub open spec fn scrubbed(s: Seq<char>, p: Seq<char>) -> Seq<char>
    decreases s.len(),
{
    if without(s, p).len() < s.len() {
        scrubbed(without(s, p), p)
    } else {
        s
    }
}

/// Taking `p` out shortens a text that holds it, and leaves any other alone.
proof fn lemma_without(s: Seq<char>, p: Seq<char>)
    requires
        p.len() > 0,
    ensures
        without(s, p).len() <= s.len(),
        lacks(s, p) ==> without(s, p) == s,
        !lacks(s, p) ==> without(s, p).len() < s.len(),
    decreases s.len(),
{
    lemma_find_from(s, p, 0);
    match find(s, p) {
        Some(at) => {
            lemma_without(s.skip(at + p.len()), p);
        },
        None => {
            assert forall|at: int| !#[trigger] matches_at(s, p, at) by {}
        },
    }
}

/// A scrubbed text holds `p` nowhere, and a text without `p` is its own
/// scrubbed form.
pub proof fn lemma_scrubbed(s: Seq<char>, p: Seq<char>)
    requires
        p.len() > 0,
    ensures
        lacks(scrubbed(s, p), p),
        lacks(s, p) ==> scrubbed(s, p) == s,
    decreases s.len(),
{
    lemma_without(s, p);
    if without(s, p).len() < s.len() {
        lemma_scrubbed(without(s, p), p);
    }
}

/// A part of a text lacks what the text lacks.
pub proof fn lemma_slice_lacks(s: Seq<char>, p: Seq<char>, from: int, to: int)
    requires
        lacks(s, p),
        0 <= from <= to <= s.len(),
    ensures
        lacks(s.subrange(from, to), p),
{
    let t = s.subrange(from, to);
    assert forall|at: int| !#[trigger] matches_at(t, p, at) by {
        if matches_at(t, p, at) {
            assert(s.subrange(from + at, from + at + p.len()) =~= t.subrange(at, at + p.len()));
            assert(matches_at(s, p, from + at));
        }
    }
}

/// Parts that lack `p`, joined by spaces, lack it.
pub proof fn lemma_join_lacks(parts: Seq<Seq<char>>, p: Seq<char>)
    requires
        forall|i: int| 0 <= i < parts.len() ==> lacks(#[trigger] parts[i], p),
        p.len() > 0,
        !p.contains(' '),
    ensures
        lacks(join(parts, seq![' ']), p),
    decreases parts.len(),
{
    if parts.len() == 1 {
        assert(lacks(parts[0], p));
    } else if parts.len() > 1 {
        let rest = parts.skip(1);
        assert forall|i: int| 0 <= i < rest.len() implies lacks(#[trigger] rest[i], p) by {
            assert(rest[i] == parts[i + 1]);
        }
        lemma_join_lacks(rest, p);
        let s = join(parts, seq![' ']);
        let tail = join(rest, seq![' ']);
        let n = parts[0].len() as int;
        assert(lacks(parts[0], p));
        assert forall|at: int| !#[trigger] matches_at(s, p, at) by {
            if matches_at(s, p, at) {
                let m = p.len() as int;
                if at + m <= n {
                    assert(parts[0].subrange(at, at + m) =~= s.subrange(at, at + m));
                    assert(matches_at(parts[0], p, at));
                } else if at > n {
                    assert(tail.subrange(at - n - 1, at - n - 1 + m) =~= s.subrange(at, at + m));
                    assert(matches_at(tail, p, at - n - 1));
                } else {
                    assert(s.subrange(at, at + m)[n - at] == s[n]);
                    assert(p[n - at] == ' ');
                }
            }
        }
    }
}

/// A text on one line lacks what the text lacks.
pub proof fn lemma_one_line_lacks(s: Seq<char>, p: Seq<char>)
    requires
        lacks(s, p),
        p.len() > 0,
        !p.contains(' '),
    ensures
        lacks(one_line(s), p),
{
    lemma_line_parts_lack(s, p);
    lemma_join_lacks(line_parts(s), p);
    lemma_trim_lacks(join(line_parts(s), seq![' ']), p);
}

proof fn lemma_trim_lacks(s: Seq<char>, p: Seq<char>)
    requires
        lacks(s, p),
    ensures
        lacks(trim(s), p),
{
    lemma_trim_ends(s);
    let k = crate::text::lead(s) as int;
    assert(trim(s) =~= s.subrange(k, k + trim(s).len())) by {
        assert forall|i: int| 0 <= i < trim(s).len() implies trim(s)[i] == s[i + k] by {}
    }
    lemma_slice_lacks(s, p, k, k + trim(s).len());
}

proof fn lemma_line_parts_lack(s: Seq<char>, p: Seq<char>)
    requires
        lacks(s, p),
    ensures
        forall|i: int| 0 <= i < line_parts(s).len() ==> lacks(#[trigger] line_parts(s)[i], p),
    decreases s.len(),
{
    let end = next_break(s, 0);
    lemma_next_break(s, 0);
    assert(s.take(end) =~= s.subrange(0, end));
    lemma_slice_lacks(s, p, 0, end);
    lemma_trim_lacks(s.take(end), p);
    if end < s.len() {
        assert(s.skip(end + 1) =~= s.subrange(end + 1, s.len() as int));
        lemma_slice_lacks(s, p, end + 1, s.len() as int);
        lemma_line_parts_lack(s.skip(end + 1), p);
        let rest = line_parts(s.skip(end + 1));
        let part = trim(s.take(end));
        let all = line_parts(s);
        assert forall|i: int| 0 <= i < all.len() implies lacks(#[trigger] all[i], p) by {
            if part.len() > 0 {
                if i > 0 {
                    assert(all[i] == rest[i - 1]);
                }
            } else {
                assert(all[i] == rest[i]);
            }
        }
    }
}

/// `s` with `p` taken out until none is left.
pub fn scrub(s: &[char], p: &[char]) -> (out: Vec<char>)
    requires
        p@.len() > 0,
    ensures
        out@ == scrubbed(s@, p@),
        lacks(out@, p@),
{
    let mut out: Vec<char> = slice_to_chars(s);
    loop
        invariant
            p@.len() > 0,
            scrubbed(out@, p@) == scrubbed(s@, p@),
        decreases out@.len(),
    {
        let next = removed(out.as_slice(), p);
        proof {
            lemma_without(out@, p@);
            lemma_scrubbed(s@, p@);
        }
        if next.len() >= out.len() {
            return out;
        }
        out = next;
    }
}

/// The first position from `from` on that ends a line: a line feed or a
/// carriage return; the length where there is none.
pub open spec fn next_break(s: Seq<char>, from: int) -> int
    decreases s.len() - from,
{
    if from >= s.len() {
        s.len() as int
    } else if s[from] == '\n' || s[from] == '\r' {
        from
    } else {
        next_break(s, from + 1)
    }
}

/// What `next_break` returns.
pub proof fn lemma_next_break(s: Seq<char>, from: int)
    requires
        0 <= from <= s.len(),
    ensures
        from <= next_break(s, from) <= s.len(),
        forall|j: int| from <= j < next_break(s, from) ==> s[j] != '\n' && s[j] != '\r',
        next_break(s, from) < s.len() ==> (s[next_break(s, from)] == '\n' || s[next_break(s, from)]
            == '\r'),
    decreases s.len() - from,
{
    if from < s.len() && s[from] != '\n' && s[from] != '\r' {
        lemma_next_break(s, from + 1);
    }
}

/// The parts of a text between line breaks, trimmed, the empty ones left out.
pub open spec fn line_parts(s: Seq<char>) -> Seq<Seq<char>>
    decreases s.len(),
{
    let end = next_break(s, 0);
    let part = trim(s.take(end));
    let rest = if 0 <= end < s.len() {
        line_parts(s.skip(end + 1))
    } else {
        Seq::empty()
    };
    if part.len() > 0 {
        seq![part] + rest
    } else {
        rest
    }
}

/// A text on one line: its lines trimmed and put together with single spaces.
pub open spec fn one_line(s: Seq<char>) -> Seq<char> {
    trim(join(line_parts(s), seq![' ']))
}

/// A text on one line.
pub fn on_one_line(s: &[char]) -> (out: Vec<char>)
    ensures
        out@ == one_line(s@),
{
    let mut parts: Vec<Vec<char>> = Vec::new();
    let mut at: usize = 0;
    let mut more: bool = true;
    assert(s@.skip(0) =~= s@);
    assert(texts(parts@) + line_parts(s@.skip(0)) =~= line_parts(s@));
    while more
        invariant
            at <= s@.len(),
            more ==> texts(parts@) + line_parts(s@.skip(at as int)) == line_parts(s@),
            !more ==> texts(parts@) == line_parts(s@),
        decreases s@.len() - at + more as int,
    {
        let ghost rest = s@.skip(at as int);
        let ghost before = parts@;
        let mut end: usize = at;
        while end < s.len() && s[end] != '\n' && s[end] != '\r'
            invariant
                at <= end <= s@.len(),
                rest == s@.skip(at as int),
                next_break(rest, 0) == next_break(rest, end - at),
            decreases s@.len() - end,
        {
            assert(rest[end - at] == s@[end as int]);
            end = end + 1;
        }
        assert(end < s@.len() ==> rest[end - at] == s@[end as int]);
        assert(next_break(rest, 0) == end - at);
        assert(rest.take(end - at) =~= s@.subrange(at as int, end as int));
        let part = trimmed(slice_subrange(s, at, end));
        if part.len() > 0 {
            parts.push(slice_to_chars(part));
            assert(texts(parts@) =~= texts(before) + seq![part@]);
        }
        if end < s.len() {
            assert(rest.skip(end - at + 1) =~= s@.skip(end + 1));
            assert(texts(parts@) + line_parts(s@.skip(end + 1)) =~= texts(before) + line_parts(
                rest,
            ));
            at = end + 1;
        } else {
            assert(texts(parts@) =~= texts(before) + line_parts(rest));
            more = false;
        }
    }
    let mut sep: Vec<char> = Vec::new();
    sep.push(' ');
    assert(sep@ =~= seq![' ']);
    let all = joined(&parts, sep.as_slice());
    slice_to_chars(trimmed(all.as_slice()))
}

/// A trimmed text neither begins nor ends with white space.
pub proof fn lemma_trim_ends(s: Seq<char>)
    ensures
        trim(s).len() > 0 ==> !is_white(trim(s)[0]) && !is_white(trim(s).last()),
        trim(s).len() + crate::text::lead(s) <= s.len(),
        forall|i: int|
            0 <= i < trim(s).len() ==> trim(s)[i] == #[trigger] s[i + crate::text::lead(s)],
{
    let t = crate::text::trim_start(s);
    crate::text::lemma_lead(s);
    crate::text::lemma_body(t);
}

/// No part of a text between line breaks holds a line break.
pub proof fn lemma_line_parts(s: Seq<char>)
    ensures
        forall|i: int, j: int|
            0 <= i < line_parts(s).len() && 0 <= j < line_parts(s)[i].len()
                ==> #[trigger] line_parts(s)[i][j] != '\n' && line_parts(s)[i][j] != '\r',
    decreases s.len(),
{
    let end = next_break(s, 0);
    lemma_next_break(s, 0);
    let part = trim(s.take(end));
    lemma_trim_ends(s.take(end));
    let rest = if 0 <= end < s.len() {
        line_parts(s.skip(end + 1))
    } else {
        Seq::empty()
    };
    if end < s.len() {
        lemma_line_parts(s.skip(end + 1));
    }
    let all = line_parts(s);
    let shift: int = if part.len() > 0 {
        1
    } else {
        0
    };
    assert forall|i: int, j: int|
        0 <= i < all.len() && 0 <= j < all[i].len() implies #[trigger] all[i][j] != '\n'
        && all[i][j] != '\r' by {
        if i < shift {
            assert(all[i] == part);
            assert(part[j] == s.take(end)[j + crate::text::lead(s.take(end))]);
        } else {
            assert(all[i] == rest[i - shift]);
            assert(rest[i - shift][j] != '\n');
        }
    }
}

/// Pieces without line breaks, joined by spaces, hold none.
pub proof fn lemma_join_no_breaks(parts: Seq<Seq<char>>)
    requires
        forall|i: int, j: int|
            0 <= i < parts.len() && 0 <= j < parts[i].len() ==> #[trigger] parts[i][j] != '\n'
                && parts[i][j] != '\r',
    ensures
        forall|j: int|
            0 <= j < join(parts, seq![' ']).len() ==> #[trigger] join(parts, seq![' '])[j] != '\n'
                && join(parts, seq![' '])[j] != '\r',
    decreases parts.len(),
{
    let all = join(parts, seq![' ']);
    if parts.len() == 1 {
        assert forall|j: int| 0 <= j < all.len() implies #[trigger] all[j] != '\n' && all[j]
            != '\r' by {
            assert(parts[0][j] != '\n');
        }
    } else if parts.len() > 1 {
        let rest = parts.skip(1);
        assert forall|i: int, j: int|
            0 <= i < rest.len() && 0 <= j < rest[i].len() implies #[trigger] rest[i][j] != '\n'
            && rest[i][j] != '\r' by {
            assert(parts[i + 1][j] != '\n');
        }
        lemma_join_no_breaks(rest);
        let tail = join(rest, seq![' ']);
        let n = parts[0].len() as int;
        assert forall|j: int| 0 <= j < all.len() implies #[trigger] all[j] != '\n' && all[j]
            != '\r' by {
            if j < n {
                assert(parts[0][j] != '\n');
            } else if j > n {
                assert(all[j] == tail[j - n - 1]);
            }
        }
    }
}

/// A text on one line holds no line break, and is trimmed.
pub proof fn lemma_one_line(s: Seq<char>)
    ensures
        one_line(s).len() > 0 ==> !is_white(one_line(s)[0]) && !is_white(one_line(s).last()),
        forall|j: int|
            0 <= j < one_line(s).len() ==> #[trigger] one_line(s)[j] != '\n' && one_line(s)[j]
                != '\r',
{
    let all = join(line_parts(s), seq![' ']);
    lemma_line_parts(s);
    lemma_join_no_breaks(line_parts(s));
    lemma_trim_ends(all);
    assert forall|j: int| 0 <= j < one_line(s).len() implies #[trigger] one_line(s)[j] != '\n'
        && one_line(s)[j] != '\r' by {
        assert(one_line(s)[j] == all[j + crate::text::lead(all)]);
        crate::text::lemma_lead(all);
        crate::text::lemma_body(crate::text::trim_start(all));
    }
}

} // verus!
