//! What holds of titles and names: cleaning a title keeps every character that can
//! be seen, and a file's name is as short as it can be.

use vstd::prelude::*;
use crate::calendar::clean_title;
use crate::clean::{lacks, lemma_scrubbed, line_parts, next_break, without};
use crate::format::{ascii_lower, is_digit, is_hex, is_lower, is_upper};
use crate::gmail::{reply_prefix, subject_title};
use crate::inbox::{claimed, plain_title, stem_for, File};
use crate::lines::join;
use crate::text::{
    all_white, body_len, is_white, lead, lemma_body, lemma_lead, matches_at, trim, trim_start,
};
use crate::text_laws::{collapsing_keeps_the_ink, ink, lemma_no_ink};
use crate::words::{collapsed, lemma_collapsed, spaced, unlinked};

verus! {

/// White space is what Unicode lists as such.
#[verifier::spinoff_prover]
#[verifier::rlimit(40)]
pub proof fn white_space_is_listed(c: char)
    ensures
        is_white(c) <==> seq![
            9int,
            10,
            11,
            12,
            13,
            32,
            133,
            160,
            5760,
            8192,
            8193,
            8194,
            8195,
            8196,
            8197,
            8198,
            8199,
            8200,
            8201,
            8202,
            8232,
            8233,
            8239,
            8287,
            12288,
        ].contains(c as int),
{
    let list = seq![
        9int,
        10,
        11,
        12,
        13,
        32,
        133,
        160,
        5760,
        8192,
        8193,
        8194,
        8195,
        8196,
        8197,
        8198,
        8199,
        8200,
        8201,
        8202,
        8232,
        8233,
        8239,
        8287,
        12288,
    ];
    let n = c as int;
    assert(list.len() == 25);
    if is_white(c) {
        let k: int = if 9 <= n <= 13 {
            n - 9
        } else if n == 32 {
            5
        } else if n == 133 {
            6
        } else if n == 160 {
            7
        } else if n == 5760 {
            8
        } else if 8192 <= n <= 8202 {
            n - 8192 + 9
        } else if n == 8232 {
            20
        } else if n == 8233 {
            21
        } else if n == 8239 {
            22
        } else if n == 8287 {
            23
        } else {
            24
        };
        assert(list[k] == n);
    }
    if list.contains(n) {
        let k = choose|k: int| 0 <= k < list.len() && list[k] == n;
    }
}

/// The letters of the alphabet and the digits are told apart, and a capital
/// letter is made the small one of its place.
#[verifier::spinoff_prover]
#[verifier::rlimit(40)]
pub proof fn letters_go_by_their_place(i: int)
    requires
        0 <= i < 26,
    ensures
        is_upper("ABCDEFGHIJKLMNOPQRSTUVWXYZ"@[i]),
        is_lower("abcdefghijklmnopqrstuvwxyz"@[i]),
        ascii_lower("ABCDEFGHIJKLMNOPQRSTUVWXYZ"@[i]) == "abcdefghijklmnopqrstuvwxyz"@[i],
        ascii_lower("abcdefghijklmnopqrstuvwxyz"@[i]) == "abcdefghijklmnopqrstuvwxyz"@[i],
        i < 10 ==> is_digit("0123456789"@[i]) && is_hex("0123456789"@[i]),
        is_hex("abcdefghijklmnopqrstuvwxyz"@[i]) <==> i < 6,
        is_hex("ABCDEFGHIJKLMNOPQRSTUVWXYZ"@[i]) <==> i < 6,
{
    reveal_strlit("ABCDEFGHIJKLMNOPQRSTUVWXYZ");
    reveal_strlit("abcdefghijklmnopqrstuvwxyz");
    reveal_strlit("0123456789");
}

/// A text without visible characters is white space.
proof fn lemma_inkless(s: Seq<char>)
    ensures
        s.filter(ink()).len() == 0 <==> all_white(s),
    decreases s.len(),
{
    reveal(Seq::filter);
    if s.len() > 0 {
        let rest = s.drop_last();
        lemma_inkless(rest);
        if all_white(s) {
            assert forall|i: int| 0 <= i < rest.len() implies is_white(#[trigger] rest[i]) by {
                assert(rest[i] == s[i]);
            }
            assert(is_white(s[s.len() - 1]));
        }
        if s.filter(ink()).len() == 0 {
            assert forall|i: int| 0 <= i < s.len() implies is_white(#[trigger] s[i]) by {
                if i < rest.len() {
                    assert(rest[i] == s[i]);
                }
            }
        }
    }
}

proof fn lemma_spaced_ink(s: Seq<char>, c: char)
    ensures
        spaced(s, c).filter(ink()) == s.filter(ink()),
    decreases s.len(),
{
    reveal(Seq::filter);
    if s.len() > 0 {
        let rest = s.drop_last();
        let r = spaced(rest, c);
        lemma_spaced_ink(rest, c);
        assert(is_white(' '));
        assert(r.push(' ').drop_last() =~= r);
        assert(r.push(' ').push(c).drop_last() =~= r.push(' '));
        assert(r.push(s.last()).drop_last() =~= r);
        assert(r.push(' ').filter(ink()) == r.filter(ink()));
    }
}

/// A collapsed text is empty where there is nothing to see.
proof fn lemma_collapsed_empty(s: Seq<char>)
    ensures
        collapsed(s).len() == 0 <==> s.filter(ink()).len() == 0,
{
    collapsing_keeps_the_ink(s);
    lemma_collapsed(s);
    lemma_inkless(collapsed(s));
    if collapsed(s).len() > 0 && s.filter(ink()).len() == 0 {
        assert(is_white(collapsed(s)[0]));
    }
    if collapsed(s).len() == 0 {
        assert(all_white(collapsed(s)));
    }
}

/// A captured title keeps every character that can be seen, in order, unless it
/// held the opening of a comment; one with nothing to see has a stand-in.
pub proof fn captured_titles_keep_what_is_seen(raw: Seq<char>)
    requires
        lacks(raw, "<!--"@),
    ensures
        raw.filter(ink()).len() > 0 ==> plain_title(raw).filter(ink()) == raw.filter(ink()),
        raw.filter(ink()).len() == 0 ==> plain_title(raw) == "(untitled)"@,
{
    reveal_strlit("<!--");
    lemma_scrubbed(raw, "<!--"@);
    let s = unlinked(raw);
    lemma_spaced_ink(raw, '[');
    lemma_spaced_ink(spaced(raw, '['), ']');
    collapsing_keeps_the_ink(s);
    lemma_collapsed_empty(s);
}

/// A subject keeps every character that can be seen, in order, unless it held the
/// opening of a comment or is a reply; one with nothing to see has a stand-in.
pub proof fn subjects_keep_what_is_seen(raw: Seq<char>)
    requires
        lacks(raw, "<!--"@),
        reply_prefix(trim_start(raw)) == 0,
    ensures
        raw.filter(ink()).len() > 0 ==> subject_title(raw).filter(ink()) == raw.filter(ink()),
        raw.filter(ink()).len() == 0 ==> subject_title(raw) == "(no subject)"@,
{
    reveal_strlit("<!--");
    lemma_scrubbed(raw, "<!--"@);
    collapsing_keeps_the_ink(raw);
    lemma_collapsed_empty(raw);
}

proof fn lemma_trim_ink(s: Seq<char>)
    ensures
        trim(s).filter(ink()) == s.filter(ink()),
{
    let none = Seq::<char>::empty();
    let k = lead(s) as int;
    lemma_lead(s);
    let t = trim_start(s);
    let front = s.take(k);
    assert forall|i: int| 0 <= i < front.len() implies is_white(#[trigger] front[i]) by {}
    lemma_no_ink(front);
    assert(s =~= front + t);
    Seq::<char>::filter_distributes_over_add(front, t, ink());
    assert(none + t.filter(ink()) =~= t.filter(ink()));
    let n = body_len(t) as int;
    lemma_body(t);
    let tail = t.skip(n);
    assert forall|i: int| 0 <= i < tail.len() implies is_white(#[trigger] tail[i]) by {
        assert(is_white(t[n + i]));
    }
    lemma_no_ink(tail);
    assert(t =~= trim(s) + tail);
    Seq::<char>::filter_distributes_over_add(trim(s), tail, ink());
    assert(trim(s).filter(ink()) + none =~= trim(s).filter(ink()));
}

#[verifier::spinoff_prover]
#[verifier::rlimit(40)]
proof fn lemma_line_parts_ink(s: Seq<char>)
    ensures
        join(line_parts(s), seq![' ']).filter(ink()) == s.filter(ink()),
    decreases s.len(),
{
    let none = Seq::<char>::empty();
    let end = next_break(s, 0);
    crate::clean::lemma_next_break(s, 0);
    let head = s.take(end);
    let part = trim(head);
    lemma_trim_ink(head);
    lemma_no_ink(none);
    if end < s.len() {
        let tail = s.skip(end + 1);
        let brk = seq![s[end]];
        lemma_line_parts_ink(tail);
        assert(is_white(s[end]));
        assert(all_white(brk));
        lemma_no_ink(brk);
        assert(s =~= head + (brk + tail));
        Seq::<char>::filter_distributes_over_add(head, brk + tail, ink());
        Seq::<char>::filter_distributes_over_add(brk, tail, ink());
        assert(none + tail.filter(ink()) =~= tail.filter(ink()));
        let rest = line_parts(tail);
        let all = line_parts(s);
        if part.len() > 0 {
            assert(all =~= seq![part] + rest);
            assert(all.skip(1) =~= rest);
            if rest.len() == 0 {
                assert(join(all, seq![' ']) == part);
                assert(join(rest, seq![' ']) =~= none);
                assert(part.filter(ink()) + none =~= part.filter(ink()));
            } else {
                let gap = seq![' '];
                assert(is_white(' '));
                assert(all_white(gap));
                lemma_no_ink(gap);
                let r = join(rest, gap);
                assert(join(all, gap) =~= part + (gap + r));
                Seq::<char>::filter_distributes_over_add(part, gap + r, ink());
                Seq::<char>::filter_distributes_over_add(gap, r, ink());
                assert(none + r.filter(ink()) =~= r.filter(ink()));
            }
        } else {
            assert(all == rest);
            assert(part =~= none);
            assert(none + tail.filter(ink()) =~= tail.filter(ink()));
        }
    } else {
        assert(head =~= s);
        if part.len() > 0 {
            assert(line_parts(s) =~= seq![part]);
            assert(join(line_parts(s), seq![' ']) == part);
        } else {
            assert(line_parts(s) =~= Seq::<Seq<char>>::empty());
            assert(join(line_parts(s), seq![' ']) =~= none);
            assert(part =~= none);
        }
    }
}

/// An event's title keeps every character that can be seen, in order, unless it
/// held the opening of a comment.
pub proof fn event_titles_keep_what_is_seen(title: Seq<char>)
    requires
        lacks(title, "<!--"@),
    ensures
        clean_title(title).filter(ink()) == title.filter(ink()),
{
    reveal_strlit("<!--");
    lemma_scrubbed(title, "<!--"@);
    lemma_line_parts_ink(title);
    lemma_trim_ink(join(line_parts(title), seq![' ']));
}

/// Only what is looked for is taken out of a text.
pub proof fn only_the_opening_is_taken_out(a: Seq<char>, p: Seq<char>, b: Seq<char>)
    requires
        p.len() > 0,
        forall|j: int| 0 <= j < a.len() ==> !#[trigger] matches_at(a + p + b, p, j),
    ensures
        without(a + p + b, p) == a + without(b, p),
{
    let s = a + p + b;
    let n = a.len() as int;
    assert(s.subrange(n, n + p.len()) =~= p);
    crate::marker_laws::lemma_find_is(s, p, n);
    assert(s.take(n) =~= a);
    assert(s.skip(n + p.len()) =~= b);
}

/// A file has its plain name where that is free, else one with the start of its
/// digest, else one with all of it.
pub proof fn names_are_as_short_as_they_can_be(
    base: Seq<char>,
    digest: Seq<char>,
    taken: Seq<Seq<char>>,
    files: Seq<File>,
)
    ensures
        ({
            let stem = stem_for(base, digest, taken, files);
            let free = |s: Seq<char>|
                !taken.contains(s) && forall|i: int|
                    0 <= i < files.len() ==> (#[trigger] files[i]).stem != s;
            let short = base + seq!['-'] + digest.take(4);
            &&& free(base) ==> stem == base
            &&& !free(base) && free(short) ==> stem == short
            &&& !free(base) && !free(short) ==> stem == base + seq!['-'] + digest
        }),
{
    let short = base + seq!['-'] + digest.take(4);
    lemma_claimed(taken, files, base);
    lemma_claimed(taken, files, short);
}

proof fn lemma_claimed(taken: Seq<Seq<char>>, files: Seq<File>, s: Seq<char>)
    ensures
        claimed(taken, files, s) == !(!taken.contains(s) && forall|i: int|
            0 <= i < files.len() ==> (#[trigger] files[i]).stem != s),
{
    if !taken.contains(s) && claimed(taken, files, s) {
        let i = choose|i: int| 0 <= i < files.len() && #[trigger] files[i].stem == s;
        assert(files[i].stem == s);
    }
}

} // verus!
