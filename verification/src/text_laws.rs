//! What holds of cleaned texts: cleaning changes what it is for, and loses
//! nothing else.

use vstd::prelude::*;
use crate::clean::{line_parts, next_break, one_line, without};
use crate::format::{ascii_lower, ascii_lowered};
use crate::gmail::{
    begins_like, folder_of, has_label, name_of, reply_prefix, usable, without_replies, Mapping,
    SyncContent,
};
use crate::lines::join;
use crate::text::{
    all_white, begins, is_white, lead, lemma_lead, lemma_lead_is, matches_at, trim, trim_start,
};
use crate::words::{
    collapsed, first_value, frontmatter, is_alnum, lemma_next_white, next_white, no_wikilink,
    slug_from, slugged, spaced, trim_char, unlinked, words,
};

verus! {

/// Characters other than white space.
pub open spec fn ink() -> spec_fn(char) -> bool {
    |c: char| !is_white(c)
}

/// Characters other than a space.
pub open spec fn no_space() -> spec_fn(char) -> bool {
    |c: char| c != ' '
}

/// ASCII letters and digits.
pub open spec fn alnum() -> spec_fn(char) -> bool {
    |c: char| is_alnum(c)
}

/// White space has no ink.
pub proof fn lemma_no_ink(s: Seq<char>)
    requires
        all_white(s),
    ensures
        s.filter(ink()) == Seq::<char>::empty(),
    decreases s.len(),
{
    reveal(Seq::filter);
    if s.len() > 0 {
        let rest = s.drop_last();
        assert forall|i: int| 0 <= i < rest.len() implies is_white(#[trigger] rest[i]) by {
            assert(rest[i] == s[i]);
        }
        lemma_no_ink(rest);
        assert(is_white(s[s.len() - 1]));
    } else {
        assert(s =~= Seq::<char>::empty());
    }
}

/// Collapsing white space keeps all ink, in order.
#[verifier::spinoff_prover]
#[verifier::rlimit(40)]
pub proof fn collapsing_keeps_the_ink(s: Seq<char>)
    ensures
        collapsed(s).filter(ink()) == s.filter(ink()),
    decreases s.len(),
{
    let t = trim_start(s);
    let k = lead(s) as int;
    let end = next_white(t, 0);
    lemma_lead(s);
    lemma_next_white(t, 0);
    let front = s.take(k);
    assert forall|i: int| 0 <= i < front.len() implies is_white(#[trigger] front[i]) by {}
    lemma_no_ink(front);
    assert(s =~= front + t);
    Seq::<char>::filter_distributes_over_add(front, t, ink());
    assert(s.filter(ink()) =~= t.filter(ink()));
    if t.len() == 0 {
        assert(words(s) =~= Seq::<Seq<char>>::empty());
        assert(collapsed(s) =~= Seq::<char>::empty());
        assert(t =~= Seq::<char>::empty());
    } else {
        assert(!is_white(t[0])) by {
            assert(t[0] == s[k]);
        }
        assert(end > 0);
        let w = t.take(end);
        let rest = t.skip(end);
        collapsing_keeps_the_ink(rest);
        assert(t =~= w + rest);
        Seq::<char>::filter_distributes_over_add(w, rest, ink());
        let more = words(rest);
        let all = words(s);
        assert(all =~= seq![w] + more);
        assert(all.skip(1) =~= more);
        if more.len() == 0 {
            assert(collapsed(s) == w);
            assert(collapsed(rest) =~= Seq::<char>::empty());
            assert(w.filter(ink()) + Seq::<char>::empty().filter(ink()) =~= w.filter(ink())) by {
                lemma_no_ink(Seq::empty());
            }
        } else {
            let gap = seq![' '];
            assert(is_white(' '));
            lemma_no_ink(gap);
            assert(collapsed(s) =~= w + (gap + collapsed(rest)));
            Seq::<char>::filter_distributes_over_add(w, gap + collapsed(rest), ink());
            Seq::<char>::filter_distributes_over_add(gap, collapsed(rest), ink());
            assert(gap.filter(ink()) + collapsed(rest).filter(ink()) =~= collapsed(rest).filter(
                ink(),
            ));
        }
    }
}

/// White space, however much of it, parts words.
#[verifier::spinoff_prover]
#[verifier::rlimit(40)]
pub proof fn white_space_parts_words(a: Seq<char>, w: Seq<char>, b: Seq<char>)
    requires
        w.len() > 0,
        all_white(w),
    ensures
        words(a + w + b) == words(a) + words(b),
    decreases a.len(),
{
    let s = a + w + b;
    let t = trim_start(a);
    let k = lead(a) as int;
    lemma_lead(a);
    lemma_next_white(t, 0);
    if k == a.len() {
        let gap = a + w;
        lemma_front_white(gap, b);
        assert(words(a) =~= Seq::<Seq<char>>::empty());
        assert(words(a) + words(b) =~= words(b));
    } else {
        let end = next_white(t, 0);
        assert(!is_white(t[0])) by {
            assert(t[0] == a[k]);
        }
        let u = s.skip(k);
        assert forall|i: int| 0 <= i < k implies is_white(#[trigger] s[i]) by {
            assert(s[i] == a[i]);
        }
        assert(s[k] == a[k]);
        lemma_lead_is(s, k);
        assert(u =~= t + w + b);
        // The first word ends where it ended before.
        assert forall|j: int| 0 <= j < end implies !is_white(#[trigger] u[j]) by {
            assert(u[j] == t[j]);
        }
        assert(is_white(u[end])) by {
            if end < t.len() {
                assert(u[end] == t[end]);
            } else {
                assert(u[end] == w[0]);
            }
        }
        lemma_next_white(u, 0);
        let e = next_white(u, 0);
        if e < end {
            assert(!is_white(u[e]));
        } else if end < e {
            assert(!is_white(u[end]));
        }
        let rest = t.skip(end);
        white_space_parts_words(rest, w, b);
        assert(u.take(end) =~= t.take(end));
        assert(u.skip(end) =~= rest + w + b);
        assert(words(s) =~= seq![t.take(end)] + (words(rest) + words(b)));
        assert(words(a) =~= seq![t.take(end)] + words(rest));
        assert(words(s) =~= words(a) + words(b));
    }
}

/// White space in front makes no difference to the words.
proof fn lemma_front_white(gap: Seq<char>, b: Seq<char>)
    requires
        all_white(gap),
    ensures
        words(gap + b) == words(b),
{
    let s = gap + b;
    lemma_lead(b);
    let k = (gap.len() + lead(b)) as int;
    assert forall|i: int| 0 <= i < k implies is_white(#[trigger] s[i]) by {
        if i >= gap.len() {
            assert(s[i] == b[i - gap.len()]);
        }
    }
    if k < s.len() {
        assert(s[k] == b[lead(b) as int]);
    }
    lemma_lead_is(s, k);
    assert(s.skip(k) =~= trim_start(b));
}

/// A word is its own only word.
pub proof fn a_word_is_one_word(w: Seq<char>)
    requires
        w.len() > 0,
        forall|i: int| 0 <= i < w.len() ==> !is_white(#[trigger] w[i]),
    ensures
        words(w) == seq![w],
        collapsed(w) == w,
{
    assert(!is_white(w[0]));
    lemma_lead_is(w, 0);
    assert(w.skip(0) =~= w);
    lemma_next_white(w, 0);
    let end = next_white(w, 0);
    if end < w.len() {
        assert(!is_white(w[end]));
    }
    assert(w.take(end) =~= w);
    let none = w.skip(end);
    lemma_lead(none);
    assert(words(none) =~= Seq::<Seq<char>>::empty());
    assert(words(w) =~= seq![w]);
}

/// Taking wikilinks apart puts spaces in, and changes nothing else; a text
/// without one stays.
pub proof fn only_wikilinks_are_taken_apart(s: Seq<char>)
    ensures
        unlinked(s).filter(no_space()) == s.filter(no_space()),
        no_wikilink(s) ==> unlinked(s) == s,
{
    lemma_spaced_keeps(s, '[');
    lemma_spaced_keeps(spaced(s, '['), ']');
    if no_wikilink(s) {
        lemma_spaced_same(s, '[');
        lemma_spaced_same(s, ']');
    }
}

proof fn lemma_spaced_keeps(s: Seq<char>, c: char)
    requires
        c != ' ',
    ensures
        spaced(s, c).filter(no_space()) == s.filter(no_space()),
    decreases s.len(),
{
    reveal(Seq::filter);
    if s.len() > 0 {
        let rest = s.drop_last();
        let r = spaced(rest, c);
        lemma_spaced_keeps(rest, c);
        assert(r.push(' ').drop_last() =~= r);
        assert(r.push(' ').push(c).drop_last() =~= r.push(' '));
        assert(r.push(s.last()).drop_last() =~= r);
        assert(r.push(' ').filter(no_space()) == r.filter(no_space()));
    }
}

proof fn lemma_spaced_same(s: Seq<char>, c: char)
    requires
        forall|i: int| 0 < i < s.len() ==> !(s[i - 1] == c && #[trigger] s[i] == c),
    ensures
        spaced(s, c) == s,
    decreases s.len(),
{
    if s.len() > 0 {
        let rest = s.drop_last();
        assert forall|i: int| 0 < i < rest.len() implies !(rest[i - 1] == c && #[trigger] rest[i]
            == c) by {
            assert(!(s[i - 1] == c && s[i] == c));
        }
        lemma_spaced_same(rest, c);
        if s.len() > 1 {
            assert(!(s[s.len() - 2] == c && s[s.len() - 1] == c));
        }
        assert(rest.push(s.last()) =~= s);
    }
}

/// A slug holds the letters and digits of its text, in small letters and in
/// order: all of them where the text is short, else a first part of them.
pub proof fn slugs_hold_their_text(text: Seq<char>, fallback: Seq<char>)
    requires
        text.filter(alnum()).len() > 0,
    ensures
        begins(ascii_lowered(text.filter(alnum())), slugged(text, fallback).filter(alnum())),
        text.len() <= 60 ==> slugged(text, fallback).filter(alnum()) == ascii_lowered(
            text.filter(alnum()),
        ),
{
    let none = Seq::<char>::empty();
    let run = slug_from(text, none);
    let all = ascii_lowered(text.filter(alnum()));
    lemma_slug_letters(text, none);
    lemma_none(alnum());
    assert(none + all =~= all);
    lemma_trimmed_letters(run);
    let got = run.filter(alnum());
    lemma_has_letter(text);
    crate::words::lemma_slug_from(text, none);
    crate::words::lemma_slug_trimmed(run);
    assert(slugged(text, fallback).filter(alnum()) == got);
}

proof fn lemma_none(p: spec_fn(char) -> bool)
    ensures
        Seq::<char>::empty().filter(p) == Seq::<char>::empty(),
{
    reveal(Seq::filter);
}

proof fn lemma_has_letter(s: Seq<char>)
    requires
        s.filter(alnum()).len() > 0,
    ensures
        crate::words::has_alnum(s),
    decreases s.len(),
{
    reveal(Seq::filter);
    if s.len() > 0 {
        if is_alnum(s[s.len() - 1]) {
        } else {
            lemma_has_letter(s.drop_last());
            let i = choose|i: int|
                0 <= i < s.drop_last().len() && is_alnum(#[trigger] s.drop_last()[i]);
            assert(is_alnum(s[i]));
        }
    }
}

#[verifier::spinoff_prover]
#[verifier::rlimit(40)]
proof fn lemma_slug_letters(s: Seq<char>, out: Seq<char>)
    ensures
        begins(
            out.filter(alnum()) + ascii_lowered(s.filter(alnum())),
            slug_from(s, out).filter(alnum()),
        ),
        out.len() + s.len() <= 60 ==> slug_from(s, out).filter(alnum()) == out.filter(alnum())
            + ascii_lowered(s.filter(alnum())),
    decreases s.len(),
{
    let none = Seq::<char>::empty();
    let o = out.filter(alnum());
    let l = ascii_lowered(s.filter(alnum()));
    if s.len() == 0 || out.len() >= 60 {
        assert((o + l).subrange(0, o.len() as int) =~= o);
        if s.len() == 0 {
            assert(s =~= none);
            lemma_none(alnum());
            assert(o + l =~= o);
        }
    } else {
        let c = s[0];
        let rest = s.skip(1);
        assert(s =~= seq![c] + rest);
        Seq::<char>::filter_distributes_over_add(seq![c], rest, alnum());
        lemma_one(c, alnum());
        let next = if is_alnum(c) {
            out.push(ascii_lower(c))
        } else if out.len() == 0 || out.last() == '-' {
            out
        } else {
            out.push('-')
        };
        lemma_slug_letters(rest, next);
        let m = ascii_lowered(rest.filter(alnum()));
        if is_alnum(c) {
            assert(next =~= out + seq![ascii_lower(c)]);
            Seq::<char>::filter_distributes_over_add(out, seq![ascii_lower(c)], alnum());
            lemma_one(ascii_lower(c), alnum());
            assert(is_alnum(ascii_lower(c)));
            assert(l =~= seq![ascii_lower(c)] + m);
            assert(next.filter(alnum()) + m =~= o + l);
        } else {
            assert(l =~= m);
            if next != out {
                assert(next =~= out + seq!['-']);
                Seq::<char>::filter_distributes_over_add(out, seq!['-'], alnum());
                lemma_one('-', alnum());
                assert(next.filter(alnum()) =~= o);
            }
        }
    }
}

proof fn lemma_one(c: char, p: spec_fn(char) -> bool)
    ensures
        seq![c].filter(p) == (if p(c) {
            seq![c]
        } else {
            Seq::<char>::empty()
        }),
{
    reveal(Seq::filter);
    let s = seq![c];
    assert(s.drop_last() =~= Seq::<char>::empty());
    lemma_none(p);
    assert(s.last() == c);
    assert(Seq::<char>::empty().push(c) =~= seq![c]);
}

proof fn lemma_trimmed_letters(s: Seq<char>)
    ensures
        trim_char(s, '-').filter(alnum()) == s.filter(alnum()),
    decreases s.len(),
{
    let none = Seq::<char>::empty();
    lemma_one('-', alnum());
    if s.len() > 0 && s[0] == '-' {
        let rest = s.skip(1);
        assert(s =~= seq!['-'] + rest);
        Seq::<char>::filter_distributes_over_add(seq!['-'], rest, alnum());
        lemma_trimmed_letters(rest);
        assert(none + rest.filter(alnum()) =~= rest.filter(alnum()));
    } else if s.len() > 0 && s.last() == '-' {
        let rest = s.drop_last();
        assert(s =~= rest + seq!['-']);
        Seq::<char>::filter_distributes_over_add(rest, seq!['-'], alnum());
        lemma_trimmed_letters(rest);
        assert(rest.filter(alnum()) + none =~= rest.filter(alnum()));
    }
}

/// Whether a text is the part of another between two positions, with only the
/// given character around it.
pub open spec fn is_core(s: Seq<char>, c: char, a: int, b: int, t: Seq<char>) -> bool {
    &&& 0 <= a <= b <= s.len()
    &&& s.subrange(a, b) == t
    &&& forall|i: int| 0 <= i < a ==> #[trigger] s[i] == c
    &&& forall|i: int| b <= i < s.len() ==> #[trigger] s[i] == c
}

/// What is trimmed of a character neither begins nor ends with it, and is the
/// text but for a run of that character at each end.
pub proof fn only_the_ends_are_trimmed(s: Seq<char>, c: char)
    ensures
        trim_char(s, c).len() > 0 ==> trim_char(s, c)[0] != c && trim_char(s, c).last() != c,
        exists|a: int, b: int| #[trigger] is_core(s, c, a, b, trim_char(s, c)),
{
    let (a, b) = lemma_core(s, c);
}

proof fn lemma_core(s: Seq<char>, c: char) -> (r: (int, int))
    ensures
        trim_char(s, c).len() > 0 ==> trim_char(s, c)[0] != c && trim_char(s, c).last() != c,
        is_core(s, c, r.0, r.1, trim_char(s, c)),
    decreases s.len(),
{
    let t = trim_char(s, c);
    if s.len() > 0 && s[0] == c {
        let rest = s.skip(1);
        let (a, b) = lemma_core(rest, c);
        assert(s.subrange(a + 1, b + 1) =~= rest.subrange(a, b));
        assert forall|i: int| 0 <= i < a + 1 implies #[trigger] s[i] == c by {
            if i > 0 {
                assert(rest[i - 1] == s[i]);
            }
        }
        assert forall|i: int| b + 1 <= i < s.len() implies #[trigger] s[i] == c by {
            assert(rest[i - 1] == s[i]);
        }
        (a + 1, b + 1)
    } else if s.len() > 0 && s.last() == c {
        let rest = s.drop_last();
        let (a, b) = lemma_core(rest, c);
        assert(s.subrange(a, b) =~= rest.subrange(a, b));
        assert forall|i: int| 0 <= i < a implies #[trigger] s[i] == c by {
            assert(rest[i] == s[i]);
        }
        assert forall|i: int| b <= i < s.len() implies #[trigger] s[i] == c by {
            if i < rest.len() {
                assert(rest[i] == s[i]);
            }
        }
        (a, b)
    } else {
        assert(s.subrange(0, s.len() as int) =~= s);
        (0, s.len() as int)
    }
}

/// A text without line breaks and without white space at its ends is its own
/// line.
pub proof fn single_lines_stay(s: Seq<char>)
    requires
        !s.contains('\n'),
        !s.contains('\r'),
        trim(s) == s,
    ensures
        one_line(s) == s,
{
    lemma_breakless(s);
    assert(s.take(s.len() as int) =~= s);
    if s.len() > 0 {
        assert(line_parts(s) =~= seq![s]);
    } else {
        assert(line_parts(s) =~= Seq::<Seq<char>>::empty());
        assert(join(Seq::<Seq<char>>::empty(), seq![' ']) =~= s);
    }
}

proof fn lemma_breakless(s: Seq<char>)
    requires
        !s.contains('\n'),
        !s.contains('\r'),
    ensures
        next_break(s, 0) == s.len(),
{
    crate::clean::lemma_next_break(s, 0);
    let k = next_break(s, 0);
    if k < s.len() {
        assert(s.contains(s[k]));
    }
}

/// Lines come to stand on one, with a space between them, in order; blank ones
/// leave nothing.
pub proof fn lines_are_put_on_one(a: Seq<char>, c: char, b: Seq<char>)
    requires
        !a.contains('\n'),
        !a.contains('\r'),
        c == '\n' || c == '\r',
    ensures
        line_parts(a + seq![c] + b) == (if trim(a).len() > 0 {
            seq![trim(a)]
        } else {
            Seq::<Seq<char>>::empty()
        }) + line_parts(b),
{
    let s = a + seq![c] + b;
    let n = a.len() as int;
    crate::clean::lemma_next_break(s, 0);
    let k = next_break(s, 0);
    assert(s[n] == c);
    if k < n {
        assert(s[k] == a[k]);
        assert(a.contains(a[k]));
    }
    assert(k == n);
    assert(s.take(n) =~= a);
    assert(s.skip(n + 1) =~= b);
    assert(line_parts(s) =~= (if trim(a).len() > 0 {
        seq![trim(a)]
    } else {
        Seq::<Seq<char>>::empty()
    }) + line_parts(b));
}

/// What stands in front of a reply mark's text makes no difference: a mark in any
/// letter case goes, with the white space in front of it, and so do all that
/// follow.
pub proof fn reply_marks_go(gap: Seq<char>, mark: Seq<char>, s: Seq<char>)
    requires
        all_white(gap),
        ascii_lowered(mark) == "re:"@ || ascii_lowered(mark) == "fwd:"@ || ascii_lowered(mark)
            == "fw:"@,
    ensures
        without_replies(gap + mark + s) == without_replies(s),
{
    reveal_strlit("re:");
    reveal_strlit("fwd:");
    reveal_strlit("fw:");
    let low = ascii_lowered(mark);
    assert(low.len() == mark.len());
    assert(low[0] == ascii_lower(mark[0]));
    assert(!is_white(mark[0])) by {
        assert(mark[0] == 'r' || mark[0] == 'R' || mark[0] == 'f' || mark[0] == 'F');
    }
    let all = gap + mark + s;
    let k = gap.len() as int;
    assert forall|i: int| 0 <= i < k implies is_white(#[trigger] all[i]) by {
        assert(all[i] == gap[i]);
    }
    assert(all[k] == mark[0]);
    lemma_lead_is(all, k);
    let t = all.skip(k);
    let n = mark.len() as int;
    assert(t =~= mark + s);
    assert(t.take(n) =~= mark);
    assert(t.skip(n) =~= s);
    lemma_small_marks();
    assert(reply_prefix(t) == n) by {
        lemma_reply(t, mark);
    }
}

proof fn lemma_small_marks()
    ensures
        ascii_lowered("re:"@) == "re:"@,
        ascii_lowered("fwd:"@) == "fwd:"@,
        ascii_lowered("fw:"@) == "fw:"@,
{
    reveal_strlit("re:");
    reveal_strlit("fwd:");
    reveal_strlit("fw:");
    assert(ascii_lowered("re:"@) =~= "re:"@);
    assert(ascii_lowered("fwd:"@) =~= "fwd:"@);
    assert(ascii_lowered("fw:"@) =~= "fw:"@);
}

#[verifier::spinoff_prover]
#[verifier::rlimit(40)]
proof fn lemma_reply(t: Seq<char>, mark: Seq<char>)
    requires
        t.len() >= mark.len(),
        t.take(mark.len() as int) == mark,
        ascii_lowered(mark) == "re:"@ || ascii_lowered(mark) == "fwd:"@ || ascii_lowered(mark)
            == "fw:"@,
    ensures
        reply_prefix(t) == mark.len(),
{
    reveal_strlit("re:");
    reveal_strlit("fwd:");
    reveal_strlit("fw:");
    lemma_small_marks();
    let n = mark.len() as int;
    let low = ascii_lowered(mark);
    assert(low.len() == n);
    assert(low[0] == ascii_lower(t[0])) by {
        assert(mark[0] == t[0]);
    }
    assert(low[1] == ascii_lower(t[1])) by {
        assert(mark[1] == t[1]);
    }
    assert(low[2] == ascii_lower(t[2])) by {
        assert(mark[2] == t[2]);
    }
    if low == "re:"@ {
        assert(begins_like(t, "re:"@));
    } else {
        if begins_like(t, "re:"@) {
            assert(ascii_lowered(t.take(3))[0] == ascii_lower(t[0]));
        }
        if low == "fwd:"@ {
            assert(begins_like(t, "fwd:"@));
        } else {
            if begins_like(t, "fwd:"@) {
                assert(ascii_lowered(t.take(4))[2] == ascii_lower(t[2]));
            }
            assert(begins_like(t, "fw:"@));
        }
    }
}

/// Every entry with a label and a folder counts, unless an earlier one has the
/// label, letter case aside; the first one's folder is the label's.
#[verifier::spinoff_prover]
#[verifier::rlimit(40)]
pub proof fn the_first_entry_of_a_label_counts(entries: Seq<SyncContent>, k: int)
    requires
        0 <= k < entries.len(),
        name_of(entries[k].label).len() > 0,
        folder_of(entries[k].path).len() > 0,
        forall|i: int|
            0 <= i < k && name_of((#[trigger] entries[i]).label).len() > 0 && folder_of(
                entries[i].path,
            ).len() > 0 ==> ascii_lowered(name_of(entries[i].label)) != ascii_lowered(
                name_of(entries[k].label),
            ),
    ensures
        usable(entries).contains(
            Mapping { label: name_of(entries[k].label), path: folder_of(entries[k].path) },
        ),
    decreases entries.len(),
{
    let rest = entries.drop_last();
    let m = Mapping { label: name_of(entries[k].label), path: folder_of(entries[k].path) };
    let u = usable(rest);
    let all = usable(entries);
    if k < rest.len() {
        assert forall|i: int|
            0 <= i < k && name_of((#[trigger] rest[i]).label).len() > 0 && folder_of(
                rest[i].path,
            ).len() > 0 implies ascii_lowered(name_of(rest[i].label)) != ascii_lowered(
            name_of(rest[k].label),
        ) by {
            assert(rest[i] == entries[i]);
        }
        assert(rest[k] == entries[k]);
        the_first_entry_of_a_label_counts(rest, k);
        let j = choose|j: int| 0 <= j < u.len() && u[j] == m;
        assert(all[j] == m);
    } else {
        if has_label(u, m.label) {
            let j = choose|j: int|
                0 <= j < u.len() && ascii_lowered(#[trigger] u[j].label) == ascii_lowered(
                    m.label,
                );
            let i = lemma_entry_of(rest, j);
            assert(rest[i] == entries[i]);
        }
        assert(all[all.len() - 1] == m);
    }
}

/// Every mapping comes from an entry.
pub proof fn lemma_entry_of(entries: Seq<SyncContent>, j: int) -> (i: int)
    requires
        0 <= j < usable(entries).len(),
    ensures
        0 <= i < entries.len(),
        name_of(entries[i].label).len() > 0,
        folder_of(entries[i].path).len() > 0,
        usable(entries)[j] == (Mapping {
            label: name_of(entries[i].label),
            path: folder_of(entries[i].path),
        }),
    decreases entries.len(),
{
    let rest = entries.drop_last();
    if j < usable(rest).len() {
        let i = lemma_entry_of(rest, j);
        assert(rest[i] == entries[i]);
        i
    } else {
        entries.len() - 1
    }
}

/// The value of a key is that of the first row that begins with the key and has
/// something behind it.
pub proof fn the_first_value_counts(rows: Seq<Seq<char>>, key: Seq<char>)
    ensures
        match first_value(rows, key) {
            Some(v) => exists|k: int|
                0 <= k < rows.len() && begins(#[trigger] rows[k], key) && trim(
                    rows[k].skip(key.len() as int),
                ) == v && v.len() > 0 && forall|j: int|
                    0 <= j < k ==> !(begins(#[trigger] rows[j], key) && trim(
                        rows[j].skip(key.len() as int),
                    ).len() > 0),
            None => forall|j: int|
                0 <= j < rows.len() ==> !(begins(#[trigger] rows[j], key) && trim(
                    rows[j].skip(key.len() as int),
                ).len() > 0),
        },
    decreases rows.len(),
{
    if rows.len() > 0 && !(begins(rows[0], key) && trim(rows[0].skip(key.len() as int)).len()
        > 0) {
        let rest = rows.skip(1);
        the_first_value_counts(rest, key);
        if let Some(v) = first_value(rest, key) {
            let k = choose|k: int|
                0 <= k < rest.len() && begins(#[trigger] rest[k], key) && trim(
                    rest[k].skip(key.len() as int),
                ) == v && v.len() > 0 && forall|j: int|
                    0 <= j < k ==> !(begins(#[trigger] rest[j], key) && trim(
                        rest[j].skip(key.len() as int),
                    ).len() > 0);
            assert(rows[k + 1] == rest[k]);
            assert forall|j: int| 0 <= j < k + 1 implies !(begins(#[trigger] rows[j], key) && trim(
                rows[j].skip(key.len() as int),
            ).len() > 0) by {
                if j > 0 {
                    assert(rows[j] == rest[j - 1]);
                }
            }
        } else {
            assert forall|j: int| 0 <= j < rows.len() implies !(begins(#[trigger] rows[j], key)
                && trim(rows[j].skip(key.len() as int)).len() > 0) by {
                if j > 0 {
                    assert(rows[j] == rest[j - 1]);
                }
            }
        }
    }
}

/// The frontmatter stands between two lines of dashes.
pub proof fn frontmatter_stands_between_dashes(front: Seq<char>, rest: Seq<char>)
    requires
        forall|j: int| 0 <= j < front.len() ==> !#[trigger] matches_at(
            front + "\n---"@ + rest,
            "\n---"@,
            j,
        ),
    ensures
        frontmatter("---\n"@ + front + "\n---"@ + rest) == Some(front),
{
    reveal_strlit("---\n");
    reveal_strlit("\n---");
    let all = "---\n"@ + front + "\n---"@ + rest;
    assert(all.subrange(0, 4) =~= "---\n"@);
    let body = front + "\n---"@ + rest;
    assert(all.skip(4) =~= body);
    let n = front.len() as int;
    assert(body.subrange(n, n + 4) =~= "\n---"@);
    crate::marker_laws::lemma_find_is(body, "\n---"@, n);
    assert(body.take(n) =~= front);
}

} // verus!
