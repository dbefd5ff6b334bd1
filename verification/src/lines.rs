//! Splitting text into lines and joining pieces.

use vstd::prelude::*;
use vstd::slice::slice_subrange;
use crate::text::append;

verus! {

/// The texts that a sequence of character vectors holds.
pub open spec fn texts(v: Seq<Vec<char>>) -> Seq<Seq<char>> {
    v.map_values(|line: Vec<char>| line@)
}

/// The texts that a sequence of strings holds.
pub open spec fn strings(v: Seq<String>) -> Seq<Seq<char>> {
    v.map_values(|s: String| s@)
}

/// The first position from `from` on that holds `c`; the length of `s` where
/// there is none.
pub open spec fn next_char(s: Seq<char>, c: char, from: int) -> int
    decreases s.len() - from,
{
    if from >= s.len() {
        s.len() as int
    } else if s[from] == c {
        from
    } else {
        next_char(s, c, from + 1)
    }
}

/// What `next_char` returns.
pub proof fn lemma_next_char(s: Seq<char>, c: char, from: int)
    requires
        0 <= from <= s.len(),
    ensures
        from <= next_char(s, c, from) <= s.len(),
        next_char(s, c, from) < s.len() ==> s[next_char(s, c, from)] == c,
        forall|j: int| from <= j < next_char(s, c, from) ==> s[j] != c,
    decreases s.len() - from,
{
    if from < s.len() && s[from] != c {
        lemma_next_char(s, c, from + 1);
    }
}

/// The position that `next_char` returns is the only one of its kind.
pub proof fn lemma_next_char_is(s: Seq<char>, c: char, from: int, at: int)
    requires
        0 <= from <= at <= s.len(),
        at < s.len() ==> s[at] == c,
        forall|j: int| from <= j < at ==> s[j] != c,
    ensures
        next_char(s, c, from) == at,
{
    lemma_next_char(s, c, from);
    let n = next_char(s, c, from);
    if n < at {
        assert(s[n] != c);
    } else if at < n {
        assert(s[at] != c);
    }
}

/// The first position from `from` on that holds `c`, or the length.
pub fn char_position(s: &[char], c: char, from: usize) -> (at: usize)
    requires
        from <= s@.len(),
    ensures
        at == next_char(s@, c, from as int),
        from <= at <= s@.len(),
        at < s@.len() ==> s@[at as int] == c,
{
    let mut i: usize = from;
    while i < s.len() && s[i] != c
        invariant
            from <= i <= s@.len(),
            forall|j: int| from <= j < i ==> s@[j] != c,
        decreases s@.len() - i,
    {
        i = i + 1;
    }
    proof {
        lemma_next_char_is(s@, c, from as int, i as int);
    }
    i
}

/// `s` without a carriage return at its end.
pub open spec fn strip_cr(s: Seq<char>) -> Seq<char> {
    if s.len() > 0 && s.last() == '\r' {
        s.drop_last()
    } else {
        s
    }
}

/// The lines of a text: it is cut after each line feed, a carriage return just
/// before one belongs to the line end, and nothing after the last line feed is
/// no line.
pub open spec fn lines(s: Seq<char>) -> Seq<Seq<char>>
    decreases s.len(),
{
    if s.len() == 0 {
        Seq::empty()
    } else {
        let end = next_char(s, '\n', 0);
        if end < 0 || end >= s.len() {
            seq![s]
        } else {
            seq![strip_cr(s.take(end))] + lines(s.skip(end + 1))
        }
    }
}

/// The lines of a text.
pub fn split_lines(s: &[char]) -> (out: Vec<Vec<char>>)
    ensures
        texts(out@) == lines(s@),
{
    let mut out: Vec<Vec<char>> = Vec::new();
    let mut at: usize = 0;
    assert(s@.skip(0) == s@);
    while at < s.len()
        invariant
            at <= s@.len(),
            texts(out@) + lines(s@.skip(at as int)) == lines(s@),
        decreases s@.len() - at,
    {
        let ghost rest = s@.skip(at as int);
        let end: usize = char_position(s, '\n', at);
        proof {
            lemma_next_char(s@, '\n', at as int);
            assert forall|j: int| 0 <= j < end - at implies rest[j] != '\n' by {
                assert(s@[at + j] != '\n');
            }
            lemma_next_char_is(rest, '\n', 0, end - at);
        }
        let ghost before = out@;
        if end == s.len() {
            let piece: Vec<char> = slice_to_chars(slice_subrange(s, at, end));
            assert(piece@ == rest);
            out.push(piece);
            assert(texts(out@) =~= texts(before) + seq![rest]);
            return out;
        }
        let mut stop: usize = end;
        if end > at && s[end - 1] == '\r' {
            stop = end - 1;
        }
        let piece: Vec<char> = slice_to_chars(slice_subrange(s, at, stop));
        assert(rest.take(end - at) == s@.subrange(at as int, end as int));
        assert(piece@ == strip_cr(rest.take(end - at)));
        assert(rest.skip(end - at + 1) == s@.skip(end + 1));
        out.push(piece);
        assert(texts(out@) =~= texts(before) + seq![piece@]);
        at = end + 1;
        assert(texts(out@) + lines(s@.skip(at as int)) =~= texts(before) + lines(rest));
    }
    assert(s@.skip(at as int).len() == 0);
    assert(texts(out@) + Seq::<Seq<char>>::empty() =~= texts(out@));
    out
}

/// A copy of a slice of characters.
pub fn slice_to_chars(s: &[char]) -> (copy: Vec<char>)
    ensures
        copy@ == s@,
{
    let mut copy: Vec<char> = Vec::new();
    append(&mut copy, s);
    assert(copy@ =~= s@);
    copy
}

/// The pieces in order, with `sep` between each two.
pub open spec fn join(parts: Seq<Seq<char>>, sep: Seq<char>) -> Seq<char>
    decreases parts.len(),
{
    if parts.len() == 0 {
        Seq::empty()
    } else if parts.len() == 1 {
        parts[0]
    } else {
        parts[0] + sep + join(parts.skip(1), sep)
    }
}

/// One more piece at the end comes after a separator.
pub proof fn lemma_join_push(parts: Seq<Seq<char>>, sep: Seq<char>, last: Seq<char>)
    ensures
        parts.len() == 0 ==> join(parts.push(last), sep) == last,
        parts.len() > 0 ==> join(parts.push(last), sep) == join(parts, sep) + sep + last,
    decreases parts.len(),
{
    if parts.len() == 1 {
        assert(parts.push(last).skip(1) =~= seq![last]);
        assert(join(seq![last], sep) == last);
    } else if parts.len() > 1 {
        assert(parts.push(last).skip(1) =~= parts.skip(1).push(last));
        lemma_join_push(parts.skip(1), sep, last);
        assert(join(parts.push(last), sep) =~= join(parts, sep) + sep + last);
    }
}

/// The pieces in order, with `sep` between each two.
pub fn joined(parts: &Vec<Vec<char>>, sep: &[char]) -> (out: Vec<char>)
    ensures
        out@ == join(texts(parts@), sep@),
{
    let mut out: Vec<char> = Vec::new();
    let mut i: usize = 0;
    while i < parts.len()
        invariant
            i <= parts@.len(),
            out@ == join(texts(parts@).take(i as int), sep@),
        decreases parts@.len() - i,
    {
        proof {
            let done = texts(parts@).take(i as int);
            lemma_join_push(done, sep@, parts@[i as int]@);
            assert(texts(parts@).take(i + 1) =~= done.push(parts@[i as int]@));
        }
        if i > 0 {
            append(&mut out, sep);
        }
        append(&mut out, parts[i].as_slice());
        assert(i == 0 ==> out@ =~= parts@[i as int]@);
        i = i + 1;
    }
    assert(texts(parts@).take(i as int) =~= texts(parts@));
    out
}

/// Whether no piece holds a line feed.
pub open spec fn single_lines(parts: Seq<Seq<char>>) -> bool {
    forall|i: int, j: int|
        0 <= i < parts.len() && 0 <= j < parts[i].len() ==> #[trigger] parts[i][j] != '\n'
}

/// Lines joined and ended by line feeds come back, each without a carriage
/// return at its end.
pub proof fn lemma_lines_of_ended(parts: Seq<Seq<char>>)
    requires
        single_lines(parts),
        parts.len() > 0,
    ensures
        lines(join(parts, seq!['\n']) + seq!['\n']) == parts.map_values(|p: Seq<char>| strip_cr(p)),
    decreases parts.len(),
{
    let first = parts[0];
    let s = join(parts, seq!['\n']) + seq!['\n'];
    assert(forall|j: int| 0 <= j < first.len() ==> #[trigger] s[j] == first[j]);
    assert(s[first.len() as int] == '\n');
    assert forall|j: int| 0 <= j < first.len() implies s[j] != '\n' by {
        assert(parts[0][j] != '\n');
    }
    lemma_next_char_is(s, '\n', 0, first.len() as int);
    assert(s.take(first.len() as int) =~= first);
    let rest = parts.skip(1);
    let mapped = parts.map_values(|p: Seq<char>| strip_cr(p));
    if parts.len() == 1 {
        assert(s.skip(first.len() as int + 1) =~= Seq::<char>::empty());
        assert(lines(s.skip(first.len() as int + 1)) =~= Seq::<Seq<char>>::empty());
        assert(mapped =~= seq![strip_cr(first)] + Seq::<Seq<char>>::empty());
    } else {
        assert(single_lines(rest)) by {
            assert forall|i: int, j: int|
                0 <= i < rest.len() && 0 <= j < rest[i].len() implies #[trigger] rest[i][j]
                != '\n' by {
                assert(parts[i + 1][j] != '\n');
            }
        }
        lemma_lines_of_ended(rest);
        assert(s.skip(first.len() as int + 1) =~= join(rest, seq!['\n']) + seq!['\n']);
        assert(mapped =~= seq![strip_cr(first)] + rest.map_values(|p: Seq<char>| strip_cr(p)));
    }
}

/// Lines joined by line feeds, the last of them not empty, come back, each but
/// the last without a carriage return at its end.
pub proof fn lemma_lines_of_joined(parts: Seq<Seq<char>>)
    requires
        single_lines(parts),
        parts.len() > 0,
        parts.last().len() > 0,
    ensures
        lines(join(parts, seq!['\n'])) == parts.drop_last().map_values(
            |p: Seq<char>| strip_cr(p),
        ).push(parts.last()),
    decreases parts.len(),
{
    let first = parts[0];
    let s = join(parts, seq!['\n']);
    let mapped = parts.drop_last().map_values(|p: Seq<char>| strip_cr(p));
    if parts.len() == 1 {
        assert forall|j: int| 0 <= j < s.len() implies s[j] != '\n' by {
            assert(parts[0][j] != '\n');
        }
        lemma_next_char_is(s, '\n', 0, s.len() as int);
        assert(mapped.push(parts.last()) =~= seq![first]);
    } else {
        assert(forall|j: int| 0 <= j < first.len() ==> #[trigger] s[j] == first[j]);
        assert(s[first.len() as int] == '\n');
        assert forall|j: int| 0 <= j < first.len() implies s[j] != '\n' by {
            assert(parts[0][j] != '\n');
        }
        lemma_next_char_is(s, '\n', 0, first.len() as int);
        assert(s.take(first.len() as int) =~= first);
        let rest = parts.skip(1);
        assert(single_lines(rest)) by {
            assert forall|i: int, j: int|
                0 <= i < rest.len() && 0 <= j < rest[i].len() implies #[trigger] rest[i][j]
                != '\n' by {
                assert(parts[i + 1][j] != '\n');
            }
        }
        lemma_lines_of_joined(rest);
        assert(s.skip(first.len() as int + 1) =~= join(rest, seq!['\n']));
        assert(mapped.push(parts.last()) =~= seq![strip_cr(first)]
            + rest.drop_last().map_values(|p: Seq<char>| strip_cr(p)).push(rest.last()));
    }
}

/// No line of a text holds a line feed.
pub proof fn lemma_lines_single(s: Seq<char>)
    ensures
        single_lines(lines(s)),
    decreases s.len(),
{
    if s.len() > 0 {
        let end = next_char(s, '\n', 0);
        lemma_next_char(s, '\n', 0);
        if end < s.len() {
            lemma_lines_single(s.skip(end + 1));
            let rest = lines(s.skip(end + 1));
            let all = lines(s);
            assert(all =~= seq![strip_cr(s.take(end))] + rest);
            assert forall|i: int, j: int|
                0 <= i < all.len() && 0 <= j < all[i].len() implies #[trigger] all[i][j]
                != '\n' by {
                if i == 0 {
                    assert(all[0][j] == s[j]);
                } else {
                    assert(all[i] == rest[i - 1]);
                    assert(rest[i - 1][j] != '\n');
                }
            }
        }
    }
}

/// A text without a line feed at its end ends in a line that is not empty.
pub proof fn lemma_last_line(s: Seq<char>)
    requires
        s.len() > 0,
        s.last() != '\n',
    ensures
        lines(s).len() > 0,
        lines(s).last().len() > 0,
    decreases s.len(),
{
    let end = next_char(s, '\n', 0);
    lemma_next_char(s, '\n', 0);
    if end < s.len() {
        let rest = s.skip(end + 1);
        assert(rest.last() == s.last());
        lemma_last_line(rest);
        assert(lines(s).last() == lines(rest).last());
    }
}

} // verus!
