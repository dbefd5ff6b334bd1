//! Words, wikilinks, slugs, and markers in foreign text.

use vstd::prelude::*;
use vstd::slice::slice_subrange;
use vstd::utf8::encode_utf8;
use crate::format::{ascii_lower, char_ascii_lower, is_digit, is_lower, is_upper};
use crate::lines::{char_position, join, joined, lines, slice_to_chars, split_lines, strings, texts};
use crate::text::{
    begins, char_is_white, find, from_chars, is_white, lead, lead_len, position, same, same_str,
    stands_at, to_chars, trim, trim_start, trimmed,
};

verus! {

/// The first position from `from` on that holds white space; the length of
/// `s` where there is none.
pub open spec fn next_white(s: Seq<char>, from: int) -> int
    decreases s.len() - from,
{
    if from >= s.len() {
        s.len() as int
    } else if is_white(s[from]) {
        from
    } else {
        next_white(s, from + 1)
    }
}

/// What `next_white` returns.
pub proof fn lemma_next_white(s: Seq<char>, from: int)
    requires
        0 <= from <= s.len(),
    ensures
        from <= next_white(s, from) <= s.len(),
        forall|j: int| from <= j < next_white(s, from) ==> !is_white(#[trigger] s[j]),
        next_white(s, from) < s.len() ==> is_white(s[next_white(s, from)]),
    decreases s.len() - from,
{
    if from < s.len() && !is_white(s[from]) {
        lemma_next_white(s, from + 1);
    }
}

/// The words of a text: its runs of characters other than white space.
pub open spec fn words(s: Seq<char>) -> Seq<Seq<char>>
    decreases s.len(),
{
    let t = trim_start(s);
    let end = next_white(t, 0);
    if t.len() == 0 || t.len() > s.len() || end <= 0 || end > t.len() {
        Seq::empty()
    } else {
        seq![t.take(end)] + words(t.skip(end))
    }
}

/// A text with every run of white space made a single space, and none at its
/// ends.
pub open spec fn collapsed(s: Seq<char>) -> Seq<char> {
    join(words(s), seq![' '])
}

/// A text with its white space collapsed.
pub fn collapse(s: &[char]) -> (out: Vec<char>)
    ensures
        out@ == collapsed(s@),
{
    let mut parts: Vec<Vec<char>> = Vec::new();
    let mut at: usize = 0;
    assert(s@.skip(0) =~= s@);
    assert(texts(parts@) + words(s@.skip(0)) =~= words(s@));
    while at < s.len()
        invariant
            at <= s@.len(),
            texts(parts@) + words(s@.skip(at as int)) == words(s@),
        decreases s@.len() - at,
    {
        let ghost rest = s@.skip(at as int);
        let ghost before = parts@;
        let start: usize = at + lead_len(slice_subrange(s, at, s.len()));
        let ghost t = trim_start(rest);
        proof {
            crate::text::lemma_lead(rest);
            assert(t =~= s@.skip(start as int));
        }
        let mut end: usize = start;
        while end < s.len() && !char_is_white(s[end])
            invariant
                start <= end <= s@.len(),
                t == s@.skip(start as int),
                next_white(t, 0) == next_white(t, end - start),
            decreases s@.len() - end,
        {
            assert(t[end - start] == s@[end as int]);
            end = end + 1;
        }
        assert(end < s@.len() ==> t[end - start] == s@[end as int]);
        assert(next_white(t, 0) == end - start);
        if start == s.len() {
            assert(texts(parts@) + words(s@.skip(start as int)) =~= words(s@)) by {
                assert(s@.skip(start as int).len() == 0);
                crate::text::lemma_lead(s@.skip(start as int));
            }
            at = start;
        } else {
            assert(!is_white(t[0])) by {
                assert(t[0] == rest[crate::text::lead(rest) as int]);
            }
            assert(t.take(end - start) =~= s@.subrange(start as int, end as int));
            assert(t.skip(end - start) =~= s@.skip(end as int));
            parts.push(slice_to_chars(slice_subrange(s, start, end)));
            assert(texts(parts@) =~= texts(before) + seq![t.take(end - start)]);
            assert(texts(parts@) + words(s@.skip(end as int)) =~= texts(before) + words(rest));
            at = end;
        }
    }
    proof {
        let e = s@.skip(at as int);
        assert(e.len() == 0);
        crate::text::lemma_lead(e);
        assert(texts(parts@) =~= words(s@));
    }
    let mut sep: Vec<char> = Vec::new();
    sep.push(' ');
    assert(sep@ =~= seq![' ']);
    joined(&parts, sep.as_slice())
}

/// A text with its white space, line breaks included, collapsed to single
/// spaces.
pub fn collapse_whitespace(s: &str) -> (out: String)
    ensures
        out@ == collapsed(s@),
{
    from_chars(collapse(to_chars(s).as_slice()).as_slice())
}

/// No word holds white space, and none is empty.
pub proof fn lemma_words(s: Seq<char>)
    ensures
        forall|i: int| 0 <= i < words(s).len() ==> (#[trigger] words(s)[i]).len() > 0,
        forall|i: int, j: int|
            0 <= i < words(s).len() && 0 <= j < words(s)[i].len() ==> !is_white(
                #[trigger] words(s)[i][j],
            ),
    decreases s.len(),
{
    let t = trim_start(s);
    crate::text::lemma_lead(s);
    lemma_next_white(t, 0);
    let end = next_white(t, 0);
    if !(t.len() == 0 || t.len() > s.len() || end <= 0 || end > t.len()) {
        lemma_words(t.skip(end));
        let rest = words(t.skip(end));
        let all = words(s);
        assert(all =~= seq![t.take(end)] + rest);
        assert forall|i: int| 0 <= i < all.len() implies (#[trigger] all[i]).len() > 0 by {
            if i > 0 {
                assert(all[i] == rest[i - 1]);
            }
        }
        assert forall|i: int, j: int|
            0 <= i < all.len() && 0 <= j < all[i].len() implies !is_white(
            #[trigger] all[i][j],
        ) by {
            if i > 0 {
                assert(all[i] == rest[i - 1]);
                assert(!is_white(rest[i - 1][j]));
            } else {
                assert(all[0][j] == t[j]);
            }
        }
    }
}

/// Words joined by spaces hold no other white space, two neighbours of them
/// never a space each, and none at an end.
pub proof fn lemma_join_words(parts: Seq<Seq<char>>)
    requires
        forall|i: int| 0 <= i < parts.len() ==> (#[trigger] parts[i]).len() > 0,
        forall|i: int, j: int|
            0 <= i < parts.len() && 0 <= j < parts[i].len() ==> !is_white(
                #[trigger] parts[i][j],
            ),
    ensures
        ({
            let s = join(parts, seq![' ']);
            &&& forall|i: int| 0 <= i < s.len() && is_white(#[trigger] s[i]) ==> s[i] == ' '
            &&& parts.len() > 0 ==> s.len() > 0 && !is_white(s[0]) && !is_white(s.last())
        }),
    decreases parts.len(),
{
    let s = join(parts, seq![' ']);
    if parts.len() == 1 {
        assert(!is_white(parts[0][0]));
        assert(!is_white(parts[0][parts[0].len() - 1]));
        assert forall|i: int| 0 <= i < s.len() && is_white(#[trigger] s[i]) implies s[i] == ' ' by {
            assert(!is_white(parts[0][i]));
        }
    } else if parts.len() > 1 {
        let rest = parts.skip(1);
        assert forall|i: int| 0 <= i < rest.len() implies (#[trigger] rest[i]).len() > 0 by {
            assert(rest[i] == parts[i + 1]);
        }
        assert forall|i: int, j: int|
            0 <= i < rest.len() && 0 <= j < rest[i].len() implies !is_white(
            #[trigger] rest[i][j],
        ) by {
            assert(!is_white(parts[i + 1][j]));
        }
        lemma_join_words(rest);
        let tail = join(rest, seq![' ']);
        let n = parts[0].len() as int;
        assert(!is_white(parts[0][0]));
        assert(s[0] == parts[0][0]);
        assert(s.last() == tail.last());
        assert forall|i: int| 0 <= i < s.len() && is_white(#[trigger] s[i]) implies s[i] == ' ' by {
            if i < n {
                assert(!is_white(parts[0][i]));
            } else if i > n {
                assert(s[i] == tail[i - n - 1]);
            }
        }
    }
}

/// A collapsed text is one line without white space at its ends, in which
/// spaces are the only white space.
pub proof fn lemma_collapsed(s: Seq<char>)
    ensures
        forall|i: int|
            0 <= i < collapsed(s).len() && is_white(#[trigger] collapsed(s)[i]) ==> collapsed(s)[i]
                == ' ',
        collapsed(s).len() > 0 ==> !is_white(collapsed(s)[0]) && !is_white(collapsed(s).last()),
{
    lemma_words(s);
    lemma_join_words(words(s));
}

/// Words joined by single spaces are those words.
pub proof fn lemma_words_of_joined(ws: Seq<Seq<char>>)
    requires
        forall|i: int| 0 <= i < ws.len() ==> (#[trigger] ws[i]).len() > 0,
        forall|i: int, j: int|
            0 <= i < ws.len() && 0 <= j < ws[i].len() ==> !is_white(#[trigger] ws[i][j]),
    ensures
        words(join(ws, seq![' '])) == ws,
    decreases ws.len(),
{
    let s = join(ws, seq![' ']);
    if ws.len() == 0 {
        crate::text::lemma_lead(s);
        assert(words(s) =~= ws);
    } else {
        let first = ws[0];
        let n = first.len() as int;
        assert(s[0] == first[0]);
        assert(!is_white(ws[0][0]));
        crate::text::lemma_lead_is(s, 0);
        assert(trim_start(s) =~= s);
        lemma_next_white(s, 0);
        let end = next_white(s, 0);
        assert(end >= n) by {
            if end < n {
                assert(s[end] == first[end]);
                assert(!is_white(ws[0][end]));
            }
        }
        assert(is_white(' '));
        if ws.len() == 1 {
            assert(s.skip(n) =~= Seq::<char>::empty());
            crate::text::lemma_lead(s.skip(n));
            assert(words(s.skip(n)) =~= Seq::<Seq<char>>::empty());
            assert(s.take(n) =~= first);
            assert(words(s) =~= ws);
        } else {
            let rest = ws.skip(1);
            let tail = join(rest, seq![' ']);
            assert forall|i: int| 0 <= i < rest.len() implies (#[trigger] rest[i]).len() > 0 by {
                assert(rest[i] == ws[i + 1]);
            }
            assert forall|i: int, j: int|
                0 <= i < rest.len() && 0 <= j < rest[i].len() implies !is_white(
                #[trigger] rest[i][j],
            ) by {
                assert(rest[i] == ws[i + 1]);
                assert(!is_white(ws[i + 1][j]));
            }
            lemma_words_of_joined(rest);
            assert(s[n] == ' ');
            assert(end == n) by {
                if end > n {
                    assert(!is_white(s[n]));
                }
            }
            assert(s.take(n) =~= first);
            let behind = s.skip(n);
            assert(behind =~= seq![' '] + tail);
            assert(tail[0] == ws[1][0]);
            assert(!is_white(ws[1][0]));
            crate::text::lemma_lead_is(behind, 1);
            crate::text::lemma_lead_is(tail, 0);
            assert(trim_start(behind) =~= tail);
            assert(trim_start(tail) =~= tail);
            assert(words(behind) == words(tail));
            assert(words(s) =~= seq![first] + rest);
            assert(seq![first] + rest =~= ws);
        }
    }
}

/// A text whose white space was collapsed is its own collapsed form.
pub proof fn lemma_collapsed_twice(s: Seq<char>)
    ensures
        collapsed(collapsed(s)) == collapsed(s),
{
    lemma_words(s);
    lemma_words_of_joined(words(s));
}

/// A text with a space put between every two neighbouring characters `c`.
pub open spec fn spaced(s: Seq<char>, c: char) -> Seq<char>
    decreases s.len(),
{
    if s.len() == 0 {
        s
    } else {
        let rest = spaced(s.drop_last(), c);
        if s.len() > 1 && s.last() == c && s[s.len() - 2] == c {
            rest.push(' ').push(c)
        } else {
            rest.push(s.last())
        }
    }
}

/// A text with a space put between every two neighbouring characters `c`.
pub fn space_out(s: &[char], c: char) -> (out: Vec<char>)
    ensures
        out@ == spaced(s@, c),
{
    let mut out: Vec<char> = Vec::new();
    let mut i: usize = 0;
    while i < s.len()
        invariant
            i <= s@.len(),
            out@ == spaced(s@.take(i as int), c),
        decreases s@.len() - i,
    {
        proof {
            assert(s@.take(i + 1).drop_last() =~= s@.take(i as int));
            assert(s@.take(i + 1).last() == s@[i as int]);
        }
        if i > 0 && s[i] == c && s[i - 1] == c {
            out.push(' ');
        }
        out.push(s[i]);
        i = i + 1;
    }
    assert(s@.take(s@.len() as int) =~= s@);
    out
}

/// A spaced-out text ends as the text does.
proof fn lemma_spaced_last(s: Seq<char>, c: char)
    requires
        s.len() > 0,
    ensures
        spaced(s, c).len() > 0,
        spaced(s, c).last() == s.last(),
{
}

/// A spaced-out text has no two neighbours `c`; other neighbours stay apart
/// where they were.
pub proof fn lemma_spaced(s: Seq<char>, c: char, d: char)
    requires
        c != ' ',
        d != ' ',
    ensures
        forall|i: int|
            0 < i < spaced(s, c).len() ==> !(spaced(s, c)[i - 1] == c && #[trigger] spaced(
                s,
                c,
            )[i] == c),
        (forall|i: int| 0 < i < s.len() ==> !(s[i - 1] == d && #[trigger] s[i] == d)) ==> forall|
            i: int,
        |
            0 < i < spaced(s, c).len() ==> !(spaced(s, c)[i - 1] == d && #[trigger] spaced(
                s,
                c,
            )[i] == d),
    decreases s.len(),
{
    if s.len() > 0 {
        let rest = s.drop_last();
        lemma_spaced(rest, c, d);
        let r = spaced(rest, c);
        let all = spaced(s, c);
        if rest.len() > 0 {
            lemma_spaced_last(rest, c);
            assert(rest.last() == s[s.len() - 2]);
        } else {
            assert(r.len() == 0);
        }
        assert forall|i: int| 0 < i < all.len() implies !(all[i - 1] == c && #[trigger] all[i]
            == c) by {
            if i < r.len() {
                assert(all[i] == r[i] && all[i - 1] == r[i - 1]);
            }
        }
        if forall|i: int| 0 < i < s.len() ==> !(s[i - 1] == d && #[trigger] s[i] == d) {
            assert forall|i: int| 0 < i < rest.len() implies !(rest[i - 1] == d
                && #[trigger] rest[i] == d) by {
                assert(rest[i] == s[i]);
            }
            assert forall|i: int| 0 < i < all.len() implies !(all[i - 1] == d && #[trigger] all[i]
                == d) by {
                if i < r.len() {
                    assert(all[i] == r[i] && all[i - 1] == r[i - 1]);
                } else if i == r.len() {
                    assert(s[s.len() - 1] == s.last());
                }
            }
        }
    }
}

/// A text in which no wikilink can start or end.
pub open spec fn unlinked(s: Seq<char>) -> Seq<char> {
    spaced(spaced(s, '['), ']')
}

/// Breaks apart `[[` and `]]`, so that a title cannot forge a wikilink.
pub fn break_wikilinks(s: &[char]) -> (out: Vec<char>)
    ensures
        out@ == unlinked(s@),
{
    space_out(space_out(s, '[').as_slice(), ']')
}

/// Whether a text holds no `[[` and no `]]`.
pub open spec fn no_wikilink(s: Seq<char>) -> bool {
    forall|i: int|
        0 < i < s.len() ==> !(s[i - 1] == '[' && #[trigger] s[i] == '[') && !(s[i - 1] == ']'
            && s[i] == ']')
}

/// A text broken apart holds no wikilink.
pub proof fn lemma_unlinked(s: Seq<char>)
    ensures
        no_wikilink(unlinked(s)),
{
    lemma_spaced(s, '[', ']');
    lemma_spaced(spaced(s, '['), ']', '[');
    let t = unlinked(s);
    assert forall|i: int| 0 < i < t.len() implies !(t[i - 1] == '[' && #[trigger] t[i] == '[') && !(
    t[i - 1] == ']' && t[i] == ']') by {}
}

/// Collapsing white space forges no wikilink.
pub proof fn lemma_collapsed_unlinked(s: Seq<char>)
    requires
        no_wikilink(s),
    ensures
        no_wikilink(collapsed(s)),
{
    lemma_words_unlinked(s);
    lemma_join_unlinked(words(s));
}

proof fn lemma_words_unlinked(s: Seq<char>)
    requires
        no_wikilink(s),
    ensures
        forall|i: int| 0 <= i < words(s).len() ==> no_wikilink(#[trigger] words(s)[i]),
    decreases s.len(),
{
    let t = trim_start(s);
    crate::text::lemma_lead(s);
    lemma_next_white(t, 0);
    let end = next_white(t, 0);
    if !(t.len() == 0 || t.len() > s.len() || end <= 0 || end > t.len()) {
        let k = lead(s) as int;
        let rest = t.skip(end);
        assert(no_wikilink(rest)) by {
            assert forall|i: int| 0 < i < rest.len() implies !(rest[i - 1] == '['
                && #[trigger] rest[i] == '[') && !(rest[i - 1] == ']' && rest[i] == ']') by {
                assert(rest[i] == s[k + end + i]);
            }
        }
        lemma_words_unlinked(rest);
        let all = words(s);
        assert(all =~= seq![t.take(end)] + words(rest));
        assert forall|i: int| 0 <= i < all.len() implies no_wikilink(#[trigger] all[i]) by {
            if i > 0 {
                assert(all[i] == words(rest)[i - 1]);
            } else {
                let w = t.take(end);
                assert forall|j: int| 0 < j < w.len() implies !(w[j - 1] == '[' && #[trigger] w[j]
                    == '[') && !(w[j - 1] == ']' && w[j] == ']') by {
                    assert(w[j] == s[k + j]);
                }
            }
        }
    }
}

proof fn lemma_join_unlinked(parts: Seq<Seq<char>>)
    requires
        forall|i: int| 0 <= i < parts.len() ==> no_wikilink(#[trigger] parts[i]),
    ensures
        no_wikilink(join(parts, seq![' '])),
    decreases parts.len(),
{
    if parts.len() == 1 {
        assert(no_wikilink(parts[0]));
    } else if parts.len() > 1 {
        let rest = parts.skip(1);
        assert forall|i: int| 0 <= i < rest.len() implies no_wikilink(#[trigger] rest[i]) by {
            assert(rest[i] == parts[i + 1]);
        }
        lemma_join_unlinked(rest);
        let s = join(parts, seq![' ']);
        let tail = join(rest, seq![' ']);
        let n = parts[0].len() as int;
        assert(no_wikilink(parts[0]));
        assert forall|i: int| 0 < i < s.len() implies !(s[i - 1] == '[' && #[trigger] s[i] == '[')
            && !(s[i - 1] == ']' && s[i] == ']') by {
            if i < n {
                assert(s[i] == parts[0][i]);
            } else if i > n + 1 {
                assert(s[i] == tail[i - n - 1]);
            } else if i == n + 1 {
                assert(s[i - 1] == ' ');
            } else {
                assert(s[i] == ' ');
            }
        }
    }
}

/// Whether `c` is an ASCII letter or digit.
pub open spec fn is_alnum(c: char) -> bool {
    is_digit(c) || is_lower(c) || is_upper(c)
}

fn char_is_alnum(c: char) -> (yes: bool)
    ensures
        yes == is_alnum(c),
{
    ('0' <= c && c <= '9') || ('a' <= c && c <= 'z') || ('A' <= c && c <= 'Z')
}

/// A slug being written: letters and digits go in small, any run of other
/// characters becomes one dash, and sixty characters end it.
pub open spec fn slug_from(s: Seq<char>, out: Seq<char>) -> Seq<char>
    decreases s.len(),
{
    if s.len() == 0 || out.len() >= 60 {
        out
    } else {
        slug_from(
            s.skip(1),
            if is_alnum(s[0]) {
                out.push(ascii_lower(s[0]))
            } else if out.len() == 0 || out.last() == '-' {
                out
            } else {
                out.push('-')
            },
        )
    }
}

/// `s` without the given character at its ends.
pub open spec fn trim_char(s: Seq<char>, c: char) -> Seq<char>
    decreases s.len(),
{
    if s.len() > 0 && s[0] == c {
        trim_char(s.skip(1), c)
    } else if s.len() > 0 && s.last() == c {
        trim_char(s.drop_last(), c)
    } else {
        s
    }
}

/// `s` without the given character at its ends.
pub fn trimmed_of(s: &[char], c: char) -> (t: &[char])
    ensures
        t@ == trim_char(s@, c),
{
    let mut from: usize = 0;
    let mut to: usize = s.len();
    assert(s@.subrange(0, s@.len() as int) =~= s@);
    loop
        invariant
            from <= to <= s@.len(),
            trim_char(s@, c) == trim_char(s@.subrange(from as int, to as int), c),
        decreases to - from,
    {
        let ghost cur = s@.subrange(from as int, to as int);
        if from < to && s[from] == c {
            assert(cur.skip(1) =~= s@.subrange(from + 1, to as int));
            from = from + 1;
        } else if from < to && s[to - 1] == c {
            assert(cur.drop_last() =~= s@.subrange(from as int, to - 1));
            to = to - 1;
        } else {
            return slice_subrange(s, from, to);
        }
    }
}

/// The slug of a text: small ASCII letters, digits and dashes, at most sixty,
/// none of the dashes at an end; `fallback` where nothing is left.
pub open spec fn slugged(text: Seq<char>, fallback: Seq<char>) -> Seq<char> {
    let out = trim_char(slug_from(text, Seq::empty()), '-');
    if out.len() == 0 {
        fallback
    } else {
        out
    }
}

/// The slug of a text, for a file name.
pub fn slug(text: &[char], fallback: &str) -> (out: Vec<char>)
    ensures
        out@ == slugged(text@, fallback@),
{
    let mut out: Vec<char> = Vec::new();
    let mut i: usize = 0;
    assert(text@.skip(0) =~= text@);
    assert(out@ =~= Seq::<char>::empty());
    while i < text.len() && out.len() < 60
        invariant
            i <= text@.len(),
            slug_from(text@, Seq::empty()) == slug_from(text@.skip(i as int), out@),
        decreases text@.len() - i,
    {
        let c: char = text[i];
        assert(text@.skip(i as int).skip(1) =~= text@.skip(i + 1));
        if char_is_alnum(c) {
            out.push(char_ascii_lower(c));
        } else if out.len() > 0 && out[out.len() - 1] != '-' {
            out.push('-');
        }
        i = i + 1;
    }
    let kept = trimmed_of(out.as_slice(), '-');
    if kept.len() == 0 {
        return to_chars(fallback);
    }
    slice_to_chars(kept)
}

/// Whether `c` may stand in a slug.
pub open spec fn is_slug_char(c: char) -> bool {
    is_lower(c) || is_digit(c) || c == '-'
}

/// Whether a text is made as slugs are: of small letters, digits and single
/// dashes, and with no dash in front.
pub open spec fn slug_made(s: Seq<char>) -> bool {
    &&& s.len() <= 60
    &&& forall|i: int| 0 <= i < s.len() ==> is_slug_char(#[trigger] s[i])
    &&& forall|i: int| 0 < i < s.len() && #[trigger] s[i] == '-' ==> s[i - 1] != '-'
    &&& s.len() > 0 ==> s[0] != '-'
}

/// Whether a text holds an ASCII letter or digit.
pub open spec fn has_alnum(s: Seq<char>) -> bool {
    exists|i: int| 0 <= i < s.len() && is_alnum(#[trigger] s[i])
}

pub proof fn lemma_slug_from(s: Seq<char>, out: Seq<char>)
    requires
        slug_made(out),
    ensures
        slug_made(slug_from(s, out)),
        slug_from(s, out).len() >= out.len(),
        (slug_from(s, out).len() > 0) == (out.len() > 0 || has_alnum(s)),
    decreases s.len(),
{
    if !(s.len() == 0 || out.len() >= 60) {
        let next = if is_alnum(s[0]) {
            out.push(ascii_lower(s[0]))
        } else if out.len() == 0 || out.last() == '-' {
            out
        } else {
            out.push('-')
        };
        assert forall|i: int| 0 <= i < next.len() implies is_slug_char(#[trigger] next[i]) by {
            if i < out.len() {
                assert(next[i] == out[i]);
            }
        }
        assert forall|i: int| 0 < i < next.len() && #[trigger] next[i] == '-' implies next[i - 1]
            != '-' by {
            assert(next[i - 1] == out[i - 1]);
            if i < out.len() {
                assert(out[i] == '-');
            }
        }
        let rest = s.skip(1);
        lemma_slug_from(rest, next);
        if has_alnum(rest) {
            let i = choose|i: int| 0 <= i < rest.len() && is_alnum(#[trigger] rest[i]);
            assert(is_alnum(s[i + 1]));
        }
        if has_alnum(s) && !is_alnum(s[0]) {
            let i = choose|i: int| 0 <= i < s.len() && is_alnum(#[trigger] s[i]);
            assert(rest[i - 1] == s[i]);
        }
    }
}

/// A text that is made as slugs are is written again as it is.
proof fn lemma_slug_again(r: Seq<char>, k: int)
    requires
        slug_made(r),
        0 <= k <= r.len(),
    ensures
        slug_from(r.skip(k), r.take(k)) == r,
    decreases r.len() - k,
{
    let left = r.skip(k);
    let out = r.take(k);
    if k == r.len() {
        assert(out =~= r);
    } else {
        assert(left[0] == r[k]);
        assert(is_slug_char(r[k]));
        assert(left.skip(1) =~= r.skip(k + 1));
        if is_alnum(r[k]) {
            assert(ascii_lower(r[k]) == r[k]);
            assert(out.push(r[k]) =~= r.take(k + 1));
        } else {
            assert(r[k] == '-');
            assert(out.last() == r[k - 1]);
            assert(out.push('-') =~= r.take(k + 1));
        }
        lemma_slug_again(r, k + 1);
    }
}

/// Of a text that is made as slugs are, trimming takes one dash from the end at
/// most.
pub proof fn lemma_slug_trimmed(run: Seq<char>)
    requires
        slug_made(run),
    ensures
        ({
            let out = trim_char(run, '-');
            &&& slug_made(out)
            &&& (out.len() > 0) == (run.len() > 0)
            &&& out.len() > 0 ==> out.last() != '-'
        }),
{
    reveal_with_fuel(trim_char, 3);
    if run.len() > 0 && run.last() == '-' {
        let n = run.len() as int;
        assert(run[n - 1] == '-');
        assert(run[n - 2] != '-');
        let out = run.drop_last();
        assert(out[0] == run[0]);
        assert(out.last() == run[n - 2]);
        assert forall|i: int| 0 <= i < out.len() implies is_slug_char(#[trigger] out[i]) by {
            assert(out[i] == run[i]);
        }
        assert forall|i: int| 0 < i < out.len() && #[trigger] out[i] == '-' implies out[i - 1]
            != '-' by {
            assert(run[i] == '-');
        }
    }
}

/// The slug of a text with an ASCII letter or digit is short, not empty, made of
/// small letters, digits and single inner dashes, and its own slug; any other
/// text gets the fallback.
pub proof fn slugs_are_safe(text: Seq<char>, fallback: Seq<char>)
    ensures
        has_alnum(text) ==> {
            let out = slugged(text, fallback);
            &&& 0 < out.len() <= 60
            &&& forall|i: int| 0 <= i < out.len() ==> is_slug_char(#[trigger] out[i])
            &&& forall|i: int| 0 < i < out.len() && #[trigger] out[i] == '-' ==> out[i - 1] != '-'
            &&& out[0] != '-'
            &&& out.last() != '-'
            &&& slugged(out, fallback) == out
        },
        !has_alnum(text) ==> slugged(text, fallback) == fallback,
{
    let run = slug_from(text, Seq::empty());
    lemma_slug_from(text, Seq::empty());
    lemma_slug_trimmed(run);
    let out = trim_char(run, '-');
    if out.len() > 0 {
        lemma_slug_again(out, 0);
        assert(out.skip(0) =~= out);
        assert(out.take(0) =~= Seq::<char>::empty());
    }
}

/// The text of a marker behind its opening: up to its end, or all of it, and
/// trimmed.
pub open spec fn marker_id(chunk: Seq<char>) -> Seq<char> {
    match find(chunk, "-->"@) {
        Some(end) => trim(chunk.take(end)),
        None => trim(chunk),
    }
}

/// Whether a marker's text is an id: not empty, at most 64 bytes, on one line.
pub open spec fn is_marker_id(id: Seq<char>) -> bool {
    id.len() > 0 && encode_utf8(id).len() <= 64 && !id.contains('\n')
}

/// The ids of the markers with the given opening, in order.
pub open spec fn marker_ids(text: Seq<char>, open: Seq<char>) -> Seq<Seq<char>>
    decreases text.len(),
{
    match find(text, open) {
        Some(at) => if open.len() > 0 && 0 <= at && at + open.len() <= text.len() {
            let rest = text.skip(at + open.len());
            let chunk = match find(rest, open) {
                Some(end) => rest.take(end),
                None => rest,
            };
            let id = marker_id(chunk);
            (if is_marker_id(id) {
                seq![id]
            } else {
                Seq::empty()
            }) + marker_ids(rest, open)
        } else {
            Seq::empty()
        },
        None => Seq::empty(),
    }
}

/// Whether the list holds the text.
pub open spec fn holds(list: Seq<String>, s: Seq<char>) -> bool {
    strings(list).contains(s)
}

/// Whether the list holds the text.
pub fn list_holds(list: &[String], s: &str) -> (yes: bool)
    ensures
        yes == holds(list@, s@),
{
    let wanted = to_chars(s);
    let mut i: usize = 0;
    while i < list.len()
        invariant
            i <= list@.len(),
            wanted@ == s@,
            forall|j: int| 0 <= j < i ==> #[trigger] strings(list@)[j] != s@,
        decreases list@.len() - i,
    {
        assert(strings(list@)[i as int] == list@[i as int]@);
        if same(to_chars(list[i].as_str()).as_slice(), wanted.as_slice()) {
            return true;
        }
        i = i + 1;
    }
    false
}

/// A list without a text.
pub fn without_text(list: &Vec<String>, s: &str) -> (out: Vec<String>)
    ensures
        forall|x: Seq<char>| #[trigger]
            holds(out@, x) == (x != s@ && holds(list@, x)),
{
    let ghost all = strings(list@);
    let mut out: Vec<String> = Vec::new();
    let mut i: usize = 0;
    while i < list.len()
        invariant
            i <= list@.len(),
            all == strings(list@),
            forall|x: Seq<char>| #[trigger]
                holds(out@, x) == (x != s@ && all.take(i as int).contains(x)),
        decreases list@.len() - i,
    {
        let ghost before = out@;
        let ghost above = all.take(i as int);
        let ghost item = list@[i as int]@;
        assert(all.take(i + 1) =~= above.push(item));
        if !same_str(list[i].as_str(), s) {
            out.push(list[i].clone());
            assert(strings(out@) =~= strings(before).push(item));
        }
        assert forall|x: Seq<char>| #[trigger] holds(out@, x) == (x != s@ && all.take(
            i + 1,
        ).contains(x)) by {
            lemma_push_contains(above, item, x);
            lemma_push_contains(strings(before), item, x);
            assert(holds(before, x) == (x != s@ && above.contains(x)));
        }
        i = i + 1;
    }
    assert(all.take(all.len() as int) =~= all);
    out
}

/// Whether the list holds nothing twice.
pub open spec fn distinct(list: Seq<String>) -> bool {
    forall|i: int, j: int|
        0 <= i < j < list.len() ==> #[trigger] strings(list)[i] != #[trigger] strings(list)[j]
}

/// One more entry, not yet held, keeps the entries distinct.
proof fn lemma_push_distinct(list: Seq<String>, s: String)
    requires
        distinct(list),
        !holds(list, s@),
    ensures
        distinct(list.push(s)),
        strings(list.push(s)) == strings(list).push(s@),
{
    let all = list.push(s);
    assert(strings(all) =~= strings(list).push(s@));
    assert forall|i: int, j: int| 0 <= i < j < all.len() implies #[trigger] strings(all)[i]
        != #[trigger] strings(all)[j] by {
        assert(strings(all)[i] == strings(list)[i]);
        if j < list.len() {
            assert(strings(all)[j] == strings(list)[j]);
        }
    }
}

/// Whether the text has the byte length of an id and lies on one line.
fn fits_marker(id: &[char]) -> (yes: bool)
    ensures
        yes == is_marker_id(id@),
{
    if id.len() == 0 {
        return false;
    }
    let s = from_chars(id);
    if s.as_str().as_bytes().len() > 64 {
        return false;
    }
    let feed: usize = char_position(id, '\n', 0);
    proof {
        crate::lines::lemma_next_char(id@, '\n', 0);
        if feed == id@.len() {
            assert(!id@.contains('\n'));
        } else {
            assert(id@[feed as int] == '\n');
        }
    }
    feed == id.len()
}

/// Every id of a marker with the given opening, each once.
pub fn scan_markers(text: &str, open: &str) -> (ids: Vec<String>)
    requires
        open@.len() > 0,
    ensures
        distinct(ids@),
        forall|id: Seq<char>| #[trigger] holds(ids@, id) == marker_ids(text@, open@).contains(id),
{
    let chars = to_chars(text);
    let opening = to_chars(open);
    let close = to_chars("-->");
    let mut ids: Vec<String> = Vec::new();
    let mut at: usize = 0;
    let ghost mut seen: Seq<Seq<char>> = Seq::empty();
    assert(text@.skip(0) =~= text@);
    assert(seen + marker_ids(text@.skip(0), open@) =~= marker_ids(text@, open@));
    loop
        invariant
            at <= chars@.len(),
            chars@ == text@,
            opening@ == open@,
            open@.len() > 0,
            close@ == "-->"@,
            distinct(ids@),
            forall|id: Seq<char>| #[trigger] holds(ids@, id) == seen.contains(id),
            seen + marker_ids(text@.skip(at as int), open@) == marker_ids(text@, open@),
        decreases chars@.len() - at,
    {
        let here = slice_subrange(chars.as_slice(), at, chars.len());
        assert(here@ =~= text@.skip(at as int));
        match position(here, opening.as_slice()) {
            Some(i) => {
                let n: usize = here.len();
                let next: usize = at + i + opening.len();
                let rest = slice_subrange(chars.as_slice(), next, chars.len());
                assert(rest@ =~= here@.skip(i + open@.len()));
                assert(rest@ =~= text@.skip(next as int));
                let chunk = match position(rest, opening.as_slice()) {
                    Some(end) => {
                        assert(rest@.subrange(0, end as int) =~= rest@.take(end as int));
                        slice_subrange(rest, 0, end)
                    },
                    None => rest,
                };
                let id = match position(chunk, close.as_slice()) {
                    Some(end) => {
                        assert(chunk@.subrange(0, end as int) =~= chunk@.take(end as int));
                        trimmed(slice_subrange(chunk, 0, end))
                    },
                    None => trimmed(chunk),
                };
                assert(id@ == marker_id(chunk@));
                proof {
                    crate::text::lemma_find_from(here@, open@, 0);
                }
                let ghost tail = marker_ids(rest@, open@);
                if fits_marker(id) {
                    let s = from_chars(id);
                    let ghost before = seen;
                    proof {
                        assert(seen + (seq![id@] + tail) =~= seen.push(id@) + tail);
                        seen = seen.push(id@);
                    }
                    if !list_holds(ids.as_slice(), s.as_str()) {
                        let ghost old_ids = ids@;
                        proof {
                            lemma_push_distinct(ids@, s);
                        }
                        ids.push(s);
                        assert forall|x: Seq<char>| #[trigger] holds(ids@, x) == seen.contains(
                            x,
                        ) by {
                            lemma_push_contains(strings(old_ids), id@, x);
                            lemma_push_contains(before, id@, x);
                            assert(holds(old_ids, x) == before.contains(x));
                        }
                    } else {
                        assert forall|x: Seq<char>| #[trigger] holds(ids@, x) == seen.contains(
                            x,
                        ) by {
                            lemma_push_contains(before, id@, x);
                            assert(holds(ids@, x) == before.contains(x));
                        }
                    }
                } else {
                    assert(seen + (Seq::<Seq<char>>::empty() + tail) =~= seen + tail);
                }
                at = next;
            },
            None => {
                assert(seen =~= marker_ids(text@, open@));
                return ids;
            },
        }
    }
}

/// The members after a push.
pub proof fn lemma_push_contains(a: Seq<Seq<char>>, id: Seq<char>, x: Seq<char>)
    ensures
        a.push(id).contains(x) == (a.contains(x) || x == id),
{
    let b = a.push(id);
    if a.contains(x) {
        let k = choose|k: int| 0 <= k < a.len() && a[k] == x;
        assert(b[k] == x);
    }
    if x == id {
        assert(b[a.len() as int] == x);
    }
    if b.contains(x) {
        let k = choose|k: int| 0 <= k < b.len() && b[k] == x;
        if k < a.len() {
            assert(a[k] == x);
        }
    }
}

/// The frontmatter of a note: what stands between `---` on the first line and
/// the next line that begins with `---`.
pub open spec fn frontmatter(content: Seq<char>) -> Option<Seq<char>> {
    if begins(content, "---\n"@) {
        let rest = content.skip(4);
        match find(rest, "\n---"@) {
            Some(end) => Some(rest.take(end)),
            None => None,
        }
    } else {
        None
    }
}

/// The value of the first line that begins with `key` and has one.
pub open spec fn first_value(rows: Seq<Seq<char>>, key: Seq<char>) -> Option<Seq<char>>
    decreases rows.len(),
{
    if rows.len() == 0 {
        None
    } else if begins(rows[0], key) && trim(rows[0].skip(key.len() as int)).len() > 0 {
        Some(trim(rows[0].skip(key.len() as int)))
    } else {
        first_value(rows.skip(1), key)
    }
}

/// The value of a frontmatter field.
pub open spec fn frontmatter_value(content: Seq<char>, key: Seq<char>) -> Option<Seq<char>> {
    match frontmatter(content) {
        Some(front) => first_value(lines(front), key),
        None => None,
    }
}

/// The value of a frontmatter field.
pub fn read_frontmatter(content: &str, key: &str) -> (found: Option<String>)
    ensures
        match found {
            Some(v) => frontmatter_value(content@, key@) == Some(v@),
            None => frontmatter_value(content@, key@) is None,
        },
{
    proof {
        reveal_strlit("---\n");
        reveal_strlit("\n---");
    }
    let chars = to_chars(content);
    if !stands_at(chars.as_slice(), to_chars("---\n").as_slice(), 0) {
        return None;
    }
    let rest = slice_subrange(chars.as_slice(), 4, chars.len());
    assert(rest@ =~= content@.skip(4));
    match position(rest, to_chars("\n---").as_slice()) {
        Some(end) => {
            let front = slice_subrange(rest, 0, end);
            assert(front@ =~= rest@.take(end as int));
            let rows = split_lines(front);
            let wanted = to_chars(key);
            let ghost view = texts(rows@);
            let mut i: usize = 0;
            assert(view.skip(0) =~= view);
            while i < rows.len()
                invariant
                    i <= rows@.len(),
                    view == texts(rows@),
                    wanted@ == key@,
                    frontmatter_value(content@, key@) == first_value(view, key@),
                    first_value(view, key@) == first_value(view.skip(i as int), key@),
                decreases rows@.len() - i,
            {
                assert(view.skip(i as int)[0] == rows@[i as int]@);
                assert(view.skip(i as int).skip(1) =~= view.skip(i + 1));
                let row = rows[i].as_slice();
                if stands_at(row, wanted.as_slice(), 0) {
                    let behind = slice_subrange(row, wanted.len(), row.len());
                    assert(behind@ =~= row@.skip(key@.len() as int));
                    let value = trimmed(behind);
                    if value.len() > 0 {
                        return Some(from_chars(value));
                    }
                }
                i = i + 1;
            }
            None
        },
        None => None,
    }
}

} // verus!
