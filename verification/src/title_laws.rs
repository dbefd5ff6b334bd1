//! What titles made from foreign text cannot hold.

use vstd::prelude::*;
use crate::calendar::clean_title;
use crate::clean::{
    lacks, lemma_join_lacks, lemma_one_line, lemma_one_line_lacks, lemma_scrubbed,
    lemma_slice_lacks, scrubbed,
};
use crate::format::{ascii_lower, ascii_lowered};
use crate::gmail::{begins_like, reply_prefix, subject_title, without_replies};
use crate::inbox::plain_title;
use crate::lines::join;
use crate::settle::tight;
use crate::text::{is_white, lead, matches_at, trim_start};
use crate::words::{
    collapsed, lemma_collapsed, lemma_collapsed_twice, lemma_collapsed_unlinked, lemma_next_white,
    lemma_unlinked, lemma_words, lemma_words_of_joined, next_white, no_wikilink, spaced, unlinked,
    words,
};

verus! {

/// Whether all white space in a text is single spaces between ink.
pub open spec fn tidy(s: Seq<char>) -> bool {
    &&& collapsed(s) == s
    &&& forall|i: int| 0 <= i < s.len() && is_white(#[trigger] s[i]) ==> s[i] == ' '
    &&& s.len() > 0
    &&& !is_white(s[0])
    &&& !is_white(s.last())
}

/// What a spaced-out text ends with, the text ends with.
proof fn lemma_spaced_end(s: Seq<char>, c: char, q: Seq<char>)
    requires
        q.len() <= spaced(s, c).len(),
        spaced(s, c).skip(spaced(s, c).len() - q.len()) == q,
        !q.contains(' '),
        !q.contains(c),
    ensures
        q.len() <= s.len(),
        s.skip(s.len() - q.len()) == q,
    decreases s.len(),
{
    let t = spaced(s, c);
    if q.len() == 0 {
        assert(s.skip(s.len() as int) =~= q);
    } else {
        assert(t.skip(t.len() - q.len()).last() == t.last());
        assert(q.contains(q.last()));
        let r = spaced(s.drop_last(), c);
        let rest = q.drop_last();
        assert(t == r.push(s.last()));
        assert(r.skip(r.len() - rest.len()) =~= rest) by {
            assert forall|i: int| 0 <= i < rest.len() implies #[trigger] r.skip(
                r.len() - rest.len(),
            )[i] == rest[i] by {
                assert(t.skip(t.len() - q.len())[i] == q[i]);
            }
        }
        assert forall|x: char| rest.contains(x) implies q.contains(x) by {
            let k = choose|k: int| 0 <= k < rest.len() && rest[k] == x;
            assert(q[k] == x);
        }
        lemma_spaced_end(s.drop_last(), c, rest);
        let d = s.drop_last();
        assert(s.skip(s.len() - q.len()) =~= q) by {
            assert forall|i: int| 0 <= i < q.len() implies #[trigger] s.skip(s.len() - q.len())[i]
                == q[i] by {
                if i < rest.len() {
                    assert(d.skip(d.len() - rest.len())[i] == rest[i]);
                }
            }
        }
    }
}

proof fn lemma_spaced_lacks(s: Seq<char>, c: char, p: Seq<char>)
    requires
        lacks(s, p),
        p.len() > 0,
        !p.contains(' '),
        !p.contains(c),
    ensures
        lacks(spaced(s, c), p),
    decreases s.len(),
{
    let t = spaced(s, c);
    assert forall|at: int| !#[trigger] matches_at(t, p, at) by {
        if matches_at(t, p, at) {
            assert(p.contains(p.last()));
            let d = s.drop_last();
            let r = spaced(d, c);
            assert(t.subrange(at, at + p.len()).last() == p.last());
            if at + p.len() <= r.len() {
                assert(s.subrange(0, d.len() as int) =~= d);
                lemma_slice_lacks(s, p, 0, d.len() as int);
                lemma_spaced_lacks(d, c, p);
                assert(r.subrange(at, at + p.len()) =~= t.subrange(at, at + p.len()));
                assert(matches_at(r, p, at));
            } else {
                assert(t[at + p.len() - 1] == p.last());
                assert(t.skip(t.len() - p.len()) =~= p);
                lemma_spaced_end(s, c, p);
                assert(s.subrange(s.len() - p.len(), s.len() as int) =~= p);
                assert(matches_at(s, p, s.len() - p.len()));
            }
        }
    }
}

proof fn lemma_words_lack(s: Seq<char>, p: Seq<char>)
    requires
        lacks(s, p),
    ensures
        forall|i: int| 0 <= i < words(s).len() ==> lacks(#[trigger] words(s)[i], p),
    decreases s.len(),
{
    let t = trim_start(s);
    crate::text::lemma_lead(s);
    lemma_next_white(t, 0);
    let end = next_white(t, 0);
    if !(t.len() == 0 || t.len() > s.len() || end <= 0 || end > t.len()) {
        let k = lead(s) as int;
        assert(s.subrange(k, k + end) =~= t.take(end));
        assert(s.subrange(k + end, s.len() as int) =~= t.skip(end));
        lemma_slice_lacks(s, p, k, k + end);
        lemma_slice_lacks(s, p, k + end, s.len() as int);
        lemma_words_lack(t.skip(end), p);
        let rest = words(t.skip(end));
        let all = words(s);
        assert(all =~= seq![t.take(end)] + rest);
        assert forall|i: int| 0 <= i < all.len() implies lacks(#[trigger] all[i], p) by {
            if i > 0 {
                assert(all[i] == rest[i - 1]);
            }
        }
    }
}

proof fn lemma_collapsed_lacks(s: Seq<char>, p: Seq<char>)
    requires
        lacks(s, p),
        p.len() > 0,
        !p.contains(' '),
    ensures
        lacks(collapsed(s), p),
{
    lemma_words_lack(s, p);
    lemma_join_lacks(words(s), p);
}

proof fn lemma_replies_lack(s: Seq<char>, p: Seq<char>)
    requires
        lacks(s, p),
    ensures
        lacks(without_replies(s), p),
    decreases s.len(),
{
    let t = trim_start(s);
    crate::text::lemma_lead(s);
    let n = reply_prefix(t);
    if 0 < n <= t.len() <= s.len() {
        let k = lead(s) as int;
        assert(s.subrange(k + n, s.len() as int) =~= t.skip(n));
        lemma_slice_lacks(s, p, k + n, s.len() as int);
        lemma_replies_lack(t.skip(n), p);
    }
}

proof fn lemma_opening()
    ensures
        "<!--"@.len() > 0,
        !"<!--"@.contains(' '),
        !"<!--"@.contains('['),
        !"<!--"@.contains(']'),
{
    reveal_strlit("<!--");
}

/// The text of a title is on one line, tidy, and forges no wikilink.
pub proof fn titles_are_plain(raw: Seq<char>)
    ensures
        tidy(plain_title(raw)),
        no_wikilink(plain_title(raw)),
{
    let s = unlinked(scrubbed(raw, "<!--"@));
    lemma_unlinked(scrubbed(raw, "<!--"@));
    lemma_collapsed(s);
    lemma_collapsed_twice(s);
    lemma_collapsed_unlinked(s);
    reveal_strlit("(untitled)");
    lemma_word("(untitled)"@);
}

/// The text of a title opens no comment, and so forges no marker, whatever the
/// raw text holds.
pub proof fn titles_open_no_comment(raw: Seq<char>)
    ensures
        lacks(plain_title(raw), "<!--"@),
{
    let p = "<!--"@;
    lemma_opening();
    let s = scrubbed(raw, p);
    lemma_scrubbed(raw, p);
    lemma_spaced_lacks(s, '[', p);
    lemma_spaced_lacks(spaced(s, '['), ']', p);
    lemma_collapsed_lacks(unlinked(s), p);
    reveal_strlit("(untitled)");
    reveal_strlit("<!--");
    let u = "(untitled)"@;
    assert forall|at: int| !#[trigger] matches_at(u, p, at) by {
        if matches_at(u, p, at) {
            assert(u.subrange(at, at + 4)[0] == '<');
        }
    }
}

/// The text of a subject is on one line and tidy.
pub proof fn subjects_are_tidy(raw: Seq<char>)
    ensures
        tidy(subject_title(raw)),
{
    let s = without_replies(scrubbed(raw, "<!--"@));
    lemma_collapsed(s);
    lemma_collapsed_twice(s);
    lemma_no_subject();
}

/// What stands for an empty subject is tidy, and no reply.
proof fn lemma_no_subject()
    ensures
        tidy("(no subject)"@),
        reply_prefix("(no subject)"@) == 0,
{
    reveal_strlit("(no subject)");
    reveal_strlit("re:");
    reveal_strlit("fwd:");
    reveal_strlit("fw:");
    let u = "(no subject)"@;
    let ws = seq!["(no"@, "subject)"@];
    reveal_strlit("(no");
    reveal_strlit("subject)");
    reveal_with_fuel(join, 3);
    assert(ws.skip(1) =~= seq!["subject)"@]);
    assert(join(ws, seq![' ']) =~= u);
    lemma_words_of_joined(ws);
    assert(ascii_lowered(u.take(3))[0] == '(');
    assert(ascii_lowered(u.take(4))[0] == '(');
    assert(ascii_lowered("re:"@)[0] == 'r');
    assert(ascii_lowered("fwd:"@)[0] == 'f');
    assert(ascii_lowered("fw:"@)[0] == 'f');
}

/// A word is its own collapsed form.
proof fn lemma_word(s: Seq<char>)
    requires
        s.len() > 0,
        forall|i: int| 0 <= i < s.len() ==> !is_white(#[trigger] s[i]),
    ensures
        collapsed(s) == s,
{
    let ws = seq![s];
    assert(join(ws, seq![' ']) =~= s);
    lemma_words_of_joined(ws);
}

/// A subject without its replies begins with none.
proof fn lemma_no_reply_left(s: Seq<char>)
    ensures
        reply_prefix(trim_start(without_replies(s))) == 0,
    decreases s.len(),
{
    let t = trim_start(s);
    crate::text::lemma_lead(s);
    reveal_strlit("re:");
    reveal_strlit("fwd:");
    reveal_strlit("fw:");
    let n = reply_prefix(t);
    if 0 < n <= t.len() <= s.len() {
        lemma_no_reply_left(t.skip(n));
    }
}

/// Collapsing white space makes no reply of a text that is none.
proof fn lemma_collapsed_reply(s: Seq<char>, p: Seq<char>)
    requires
        begins_like(collapsed(s), p),
        p.len() > 0,
        forall|i: int| 0 <= i < p.len() ==> ascii_lower(#[trigger] p[i]) != ' ',
    ensures
        begins_like(trim_start(s), p),
{
    let c = collapsed(s);
    let t = trim_start(s);
    let ws = words(s);
    let n = p.len() as int;
    crate::text::lemma_lead(s);
    lemma_next_white(t, 0);
    lemma_words(s);
    let end = next_white(t, 0);
    assert(ws.len() > 0);
    assert(!(t.len() == 0 || t.len() > s.len() || end <= 0 || end > t.len()));
    let first = t.take(end);
    assert(ws =~= seq![first] + words(t.skip(end)));
    assert(ws[0] == first);
    assert forall|i: int| 0 <= i < n implies i < first.len() && c[i] == t[i] by {
        assert(ascii_lowered(c.take(n))[i] == ascii_lowered(p)[i]);
        assert(ascii_lower(c[i]) == ascii_lower(p[i]));
        if first.len() < n {
            let k = first.len() as int;
            assert(ascii_lowered(c.take(n))[k] == ascii_lowered(p)[k]);
            if ws.len() > 1 {
                assert(c[k] == ' ');
            } else {
                assert(c == first);
            }
        }
    }
    assert(t.take(n) =~= c.take(n));
}

/// A cleaned subject keeps no reply prefix, however many the raw text stacks,
/// and cleaning it again changes nothing.
pub proof fn subjects_are_clean(raw: Seq<char>)
    ensures
        reply_prefix(subject_title(raw)) == 0,
        subject_title(subject_title(raw)) == subject_title(raw),
{
    let p = "<!--"@;
    let s = without_replies(scrubbed(raw, p));
    let out = subject_title(raw);
    lemma_no_reply_left(scrubbed(raw, p));
    subjects_are_tidy(raw);
    subjects_open_no_comment(raw);
    lemma_no_subject();
    reveal_strlit("re:");
    reveal_strlit("fwd:");
    reveal_strlit("fw:");
    if collapsed(s).len() > 0 {
        if begins_like(out, "re:"@) {
            lemma_collapsed_reply(s, "re:"@);
        }
        if begins_like(out, "fwd:"@) {
            lemma_collapsed_reply(s, "fwd:"@);
        }
        if begins_like(out, "fw:"@) {
            lemma_collapsed_reply(s, "fw:"@);
        }
    }
    lemma_opening();
    lemma_scrubbed(out, p);
    crate::text::lemma_lead_is(out, 0);
    assert(trim_start(out) =~= out);
    assert(without_replies(out) == out);
}

/// The text of a subject opens no comment, and so forges no marker, whatever the
/// raw text holds.
pub proof fn subjects_open_no_comment(raw: Seq<char>)
    ensures
        lacks(subject_title(raw), "<!--"@),
{
    let p = "<!--"@;
    lemma_opening();
    let s = scrubbed(raw, p);
    lemma_scrubbed(raw, p);
    lemma_replies_lack(s, p);
    lemma_collapsed_lacks(without_replies(s), p);
    reveal_strlit("(no subject)");
    reveal_strlit("<!--");
    let u = "(no subject)"@;
    assert forall|at: int| !#[trigger] matches_at(u, p, at) by {
        if matches_at(u, p, at) {
            assert(u.subrange(at, at + 4)[0] == '<');
        }
    }
}

/// The text of a calendar title opens no comment, and so forges no marker,
/// whatever the title holds, and stands on one line.
pub proof fn calendar_titles_open_no_comment(title: Seq<char>)
    ensures
        lacks(clean_title(title), "<!--"@),
        !clean_title(title).contains('\n'),
        !clean_title(title).contains('\r'),
        tight(clean_title(title)),
{
    let s = scrubbed(title, "<!--"@);
    lemma_opening();
    lemma_scrubbed(title, "<!--"@);
    lemma_one_line_lacks(s, "<!--"@);
    lemma_one_line(s);
}

} // verus!
