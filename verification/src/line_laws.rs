//! What holds of synced lines: they read back as they were written.

use vstd::prelude::*;
use crate::day_plan::{clock, is_dash, range_end, time_prefix};
use crate::format::{digit, is_digit, is_hex, is_lower, lemma_two_digits, two_digits};
use crate::lines::{lemma_next_char, lemma_next_char_is, next_char};
use crate::synced_line::{
    all_hex, all_lower, box_end, clear, lemma_text_offset, lemma_time_token_len, line_marker,
    marker, payload, range_token, suffix_of, text_offset, time_token, EventKind,
};
use crate::text::{
    all_white, begins, body_len, ends, is_white, lead, lemma_body, lemma_body_is, lemma_lead,
    lemma_lead_is, lemma_rfind_is, lemma_rfind_to, matches_at, rfind, trim_end,
};

verus! {

/// The payload of a marker: the id, and a suffix behind a colon.
pub open spec fn pay(id: Seq<char>, suffix: Option<Seq<char>>) -> Seq<char> {
    match suffix {
        Some(s) => id + seq![':'] + s,
        None => id,
    }
}

/// Whether a marker may carry this id and suffix.
pub open spec fn good_mark(id: Seq<char>, suffix: Option<Seq<char>>) -> bool {
    &&& id.len() > 0
    &&& all_hex(id)
    &&& suffix matches Some(s) ==> s.len() > 0 && all_lower(s)
}

/// The marker with an id and a suffix.
pub open spec fn mark(id: Seq<char>, suffix: Option<Seq<char>>) -> Seq<char> {
    "<!--gcal:"@ + pay(id, suffix) + "-->"@
}

/// A well-formed payload reads back.
pub proof fn lemma_pay(id: Seq<char>, suffix: Option<Seq<char>>)
    requires
        good_mark(id, suffix),
    ensures
        payload(pay(id, suffix)) == Some((id, suffix)),
        forall|i: int| 0 <= i < pay(id, suffix).len() ==> #[trigger] pay(id, suffix)[i] != '<',
{
    let p = pay(id, suffix);
    let n = id.len() as int;
    assert forall|j: int| 0 <= j < n implies p[j] != ':' && p[j] != '<' by {
        assert(is_hex(id[j]));
        assert(p[j] == id[j]);
    }
    lemma_next_char_is(p, ':', 0, n);
    assert(p.take(n) =~= id);
    if let Some(s) = suffix {
        assert(p.skip(n + 1) =~= s);
        assert forall|i: int| 0 <= i < p.len() implies #[trigger] p[i] != '<' by {
            if i > n {
                assert(is_lower(s[i - n - 1]));
            }
        }
    }
}

/// A payload that parses is made of its id and suffix.
pub proof fn lemma_payload_parts(p: Seq<char>)
    ensures
        payload(p) matches Some((id, suffix)) ==> good_mark(id, suffix) && p == pay(id, suffix),
{
    if let Some((id, suffix)) = payload(p) {
        let colon = next_char(p, ':', 0);
        lemma_next_char(p, ':', 0);
        if colon < p.len() {
            assert(p =~= p.take(colon) + seq![':'] + p.skip(colon + 1));
        } else {
            assert(p.take(colon) =~= p);
        }
    }
}

/// The suffix of a kind is one that a marker may carry.
pub proof fn lemma_marker_is_mark(id: Seq<char>, kind: EventKind)
    requires
        id.len() > 0,
        all_hex(id),
    ensures
        good_mark(id, suffix_of(kind)),
        marker(id, kind) == mark(id, suffix_of(kind)),
{
    reveal_strlit("focus");
    reveal_strlit("ooo");
    assert(marker(id, kind) =~= mark(id, suffix_of(kind)));
}

/// Only the first character of a marker is an opening angle bracket.
pub proof fn lemma_mark_chars(id: Seq<char>, suffix: Option<Seq<char>>)
    requires
        good_mark(id, suffix),
    ensures
        mark(id, suffix).len() == pay(id, suffix).len() + 12,
        mark(id, suffix).len() >= 13,
        mark(id, suffix)[0] == '<',
        mark(id, suffix).last() == '>',
        mark(id, suffix).take(9) == "<!--gcal:"@,
        mark(id, suffix).skip(9) == pay(id, suffix) + "-->"@,
        forall|i: int| 0 < i < mark(id, suffix).len() ==> #[trigger] mark(id, suffix)[i] != '<',
{
    reveal_strlit("<!--gcal:");
    reveal_strlit("-->");
    let m = mark(id, suffix);
    let p = pay(id, suffix);
    lemma_pay(id, suffix);
    assert(m.take(9) =~= "<!--gcal:"@);
    assert(m.skip(9) =~= p + "-->"@);
    assert forall|i: int| 0 < i < m.len() implies #[trigger] m[i] != '<' by {
        if i < 9 {
            assert(m[i] == "<!--gcal:"@[i]);
        } else if i < 9 + p.len() {
            assert(m[i] == p[i - 9]);
        } else {
            assert(m[i] == "-->"@[i - 9 - p.len()]);
        }
    }
}

/// A line that ends in a marker and white space reads back its id and suffix.
pub proof fn lemma_line_marker(
    a: Seq<char>,
    id: Seq<char>,
    suffix: Option<Seq<char>>,
    w: Seq<char>,
)
    requires
        good_mark(id, suffix),
        all_white(w),
    ensures
        ({
            let line = a + mark(id, suffix) + w;
            &&& line_marker(line) == Some((a.len() as int, id, suffix))
            &&& body_len(line) == a.len() + mark(id, suffix).len()
            &&& mark(id, suffix).len() >= 13
        }),
{
    reveal(line_marker);
    let m = mark(id, suffix);
    let p = pay(id, suffix);
    let line = a + m + w;
    let at = a.len() as int;
    lemma_mark_chars(id, suffix);
    let cut = at + m.len();
    assert forall|i: int| cut <= i < line.len() implies is_white(#[trigger] line[i]) by {
        assert(is_white(w[i - cut]));
    }
    assert(line[cut - 1] == m.last());
    lemma_body_is(line, cut);
    let t = trim_end(line);
    assert(t =~= a + m);
    lemma_marker_found(t, a, id, suffix);
    let behind = t.skip(at + 9);
    assert(behind =~= m.skip(9));
    lemma_pay_closed(id, suffix);
}

/// The last marker opening of a text that ends in a marker is that marker's.
proof fn lemma_marker_found(
    t: Seq<char>,
    a: Seq<char>,
    id: Seq<char>,
    suffix: Option<Seq<char>>,
)
    requires
        good_mark(id, suffix),
        t == a + mark(id, suffix),
    ensures
        rfind(t, "<!--gcal:"@) == Some(a.len() as int),
{
    let m = mark(id, suffix);
    let at = a.len() as int;
    let open = "<!--gcal:"@;
    lemma_mark_chars(id, suffix);
    assert(open.len() == 9 && open[0] == '<') by {
        reveal_strlit("<!--gcal:");
    }
    assert(t.subrange(at, at + 9) =~= m.take(9));
    assert forall|j: int| at < j implies !matches_at(t, open, j) by {
        if matches_at(t, open, j) {
            assert(t.subrange(j, j + 9)[0] == t[j]);
            assert(t[j] == m[j - at]);
        }
    }
    lemma_rfind_is(t, open, at);
}

/// A payload and the marker's end come apart again.
proof fn lemma_pay_closed(id: Seq<char>, suffix: Option<Seq<char>>)
    requires
        good_mark(id, suffix),
    ensures
        ({
            let behind = pay(id, suffix) + "-->"@;
            &&& ends(behind, "-->"@)
            &&& payload(behind.take(behind.len() - 3)) == Some((id, suffix))
        }),
{
    reveal_strlit("-->");
    let behind = pay(id, suffix) + "-->"@;
    assert(behind.subrange(behind.len() - 3, behind.len() as int) =~= "-->"@);
    assert(behind.take(behind.len() - 3) =~= pay(id, suffix));
    lemma_pay(id, suffix);
}

/// The marker of a line is made of its id and suffix, and only white space
/// follows it.
pub proof fn lemma_marker_text(line: Seq<char>)
    ensures
        line_marker(line) matches Some((at, id, suffix)) ==> {
            &&& good_mark(id, suffix)
            &&& 0 <= at <= body_len(line) <= line.len()
            &&& line.subrange(at, body_len(line) as int) == mark(id, suffix)
            &&& all_white(line.skip(body_len(line) as int))
            &&& line == line.take(at) + mark(id, suffix) + line.skip(body_len(line) as int)
        },
{
    reveal(line_marker);
    reveal_strlit("<!--gcal:");
    reveal_strlit("-->");
    lemma_body(line);
    if let Some((at, id, suffix)) = line_marker(line) {
        let t = trim_end(line);
        lemma_rfind_to(t, "<!--gcal:"@, t.len() - 9);
        let behind = t.skip(at + 9);
        let p = behind.take(behind.len() - 3);
        lemma_payload_parts(p);
        let n = body_len(line) as int;
        assert(line.subrange(at, n) =~= t.subrange(at, at + 9) + p + behind.subrange(
            behind.len() - 3,
            behind.len() as int,
        ));
        assert forall|i: int| 0 <= i < line.skip(n).len() implies is_white(
            #[trigger] line.skip(n)[i],
        ) by {
            assert(is_white(line[n + i]));
        }
        assert(line =~= line.take(at) + line.subrange(at, n) + line.skip(n));
    }
}

/// The checkbox of a line depends on what stands up to its end alone.
pub proof fn lemma_box_prefix(a: Seq<char>, b: Seq<char>, end: int)
    requires
        box_end(a) == Some(end),
        end <= b.len(),
        b.take(end) == a.take(end),
    ensures
        box_end(b) == Some(end),
{
    reveal(box_end);
    lemma_text_offset(a);
    let bullet = lead(a) as int;
    lemma_lead(a);
    let after = a.skip(bullet + 1);
    let space = lead(after) as int;
    lemma_lead(after);
    assert forall|i: int| 0 <= i < end implies a[i] == b[i] by {
        assert(a.take(end)[i] == a[i]);
        assert(b.take(end)[i] == b[i]);
    }
    lemma_lead_is(b, bullet);
    let other = b.skip(bullet + 1);
    assert forall|i: int| 0 <= i < space implies is_white(#[trigger] other[i]) by {
        assert(is_white(after[i]));
    }
    assert(other[space] == b[bullet + 1 + space]);
    lemma_lead_is(other, space);
}

/// Whether `head` is the front of a task line, up to its text: a checkbox and
/// white space behind it.
pub open spec fn task_head(head: Seq<char>) -> bool {
    box_end(head) is Some && box_end(head)->0 < head.len() && all_white(
        head.skip(box_end(head)->0),
    )
}

/// Behind the front of a task line its text starts.
pub proof fn lemma_task_head(head: Seq<char>, rest: Seq<char>)
    requires
        task_head(head),
        rest.len() > 0,
        !is_white(rest[0]),
    ensures
        text_offset(head + rest) == Some(head.len() as int),
{
    reveal(text_offset);
    let line = head + rest;
    let end = box_end(head)->0;
    lemma_text_offset(head);
    assert(line.take(end) =~= head.take(end));
    lemma_box_prefix(head, line, end);
    let behind = line.skip(end);
    assert forall|i: int| 0 <= i < head.len() - end implies is_white(#[trigger] behind[i]) by {
        assert(is_white(head.skip(end)[i]));
    }
    assert(behind[head.len() - end] == rest[0]);
    lemma_lead_is(behind, head.len() - end);
}

/// White space more keeps the front of a task line one.
pub proof fn lemma_task_head_more(head: Seq<char>, space: Seq<char>)
    requires
        task_head(head),
        all_white(space),
    ensures
        task_head(head + space),
{
    let end = box_end(head)->0;
    let more = head + space;
    lemma_text_offset(head);
    assert(more.take(end) =~= head.take(end));
    lemma_box_prefix(head, more, end);
    assert forall|i: int| 0 <= i < more.skip(end).len() implies is_white(
        #[trigger] more.skip(end)[i],
    ) by {
        if end + i < head.len() {
            assert(is_white(head.skip(end)[i]));
        } else {
            assert(is_white(space[end + i - head.len()]));
        }
    }
}

/// White space behind a text does not change the clock time it begins with.
pub proof fn lemma_clock_append(s: Seq<char>, g: Seq<char>, limit: int)
    requires
        all_white(g),
    ensures
        clock(s + g, limit) == clock(s, limit),
{
    let t = s + g;
    assert forall|i: int| s.len() <= i < t.len() implies !is_digit(#[trigger] t[i]) && t[i]
        != ':' by {
        assert(is_white(g[i - s.len()]));
    }
    assert(forall|i: int| 0 <= i < s.len() ==> t[i] == s[i]);
}

/// White space behind a text does not change where its leading white space
/// ends, unless there is nothing else.
pub proof fn lemma_lead_append(s: Seq<char>, g: Seq<char>)
    requires
        all_white(g),
    ensures
        lead(s) < s.len() ==> lead(s + g) == lead(s),
        lead(s) == s.len() ==> lead(s + g) == s.len() + g.len(),
{
    lemma_lead(s);
    let t = s + g;
    let n = lead(s) as int;
    if n < s.len() {
        assert forall|i: int| 0 <= i < n implies is_white(#[trigger] t[i]) by {
            assert(is_white(s[i]));
        }
        lemma_lead_is(t, n);
    } else {
        assert forall|i: int| 0 <= i < t.len() implies is_white(#[trigger] t[i]) by {
            if i < s.len() {
                assert(is_white(s[i]));
            } else {
                assert(is_white(g[i - s.len()]));
            }
        }
        lemma_lead_is(t, t.len() as int);
    }
}

/// White space behind a text does not change the range end it begins with.
pub proof fn lemma_range_end_append(s: Seq<char>, g: Seq<char>)
    requires
        all_white(g),
    ensures
        match range_end(s) {
            Some((end, after)) => range_end(s + g) == Some((end, after + g)),
            None => range_end(s + g) is None,
        },
{
    lemma_lead(s);
    lemma_lead_append(s, g);
    let at = lead(s) as int;
    if at < s.len() && is_dash(s[at]) {
        let behind = s.skip(at + 1);
        assert((s + g).skip(at + 1) =~= behind + g);
        lemma_lead(behind);
        lemma_lead_append(behind, g);
        let n = lead(behind) as int;
        let rest = behind.skip(n);
        if n < behind.len() {
            assert((behind + g).skip(n) =~= rest + g);
            lemma_clock_append(rest, g, 1440);
            if let Some((end, len)) = clock(rest, 1440) {
                assert((rest + g).skip(len) =~= rest.skip(len) + g);
            }
        } else {
            assert((behind + g).skip(behind.len() as int + g.len() as int) =~= Seq::<char>::empty());
            assert(rest =~= Seq::<char>::empty());
        }
    }
}

/// White space behind a text does not change the time token it begins with.
pub proof fn lemma_time_token_append(s: Seq<char>, g: Seq<char>)
    requires
        all_white(g),
    ensures
        time_token(s + g) == time_token(s),
{
    reveal(time_token);
    lemma_clock_append(s, g, 1439);
    if let Some((start, rest)) = time_prefix(s) {
        let len = (clock(s, 1439)->0).1;
        assert((s + g).skip(len) =~= rest + g);
        lemma_range_end_append(rest, g);
        assert(clear(rest + g) == clear(rest)) by {
            if rest.len() == 0 && g.len() > 0 {
                assert(is_white(g[0]));
            }
        }
        if let Some((_, after)) = range_end(rest) {
            assert(clear(after + g) == clear(after)) by {
                if after.len() == 0 && g.len() > 0 {
                    assert(is_white(g[0]));
                }
            }
        }
    }
}

/// The clock time of a two-digit hour and minute.
pub proof fn lemma_clock_of(minutes: nat, r: Seq<char>, limit: int)
    requires
        minutes <= limit <= 1440,
    ensures
        clock(two_digits(minutes / 60) + seq![':'] + two_digits(minutes % 60) + r, limit) == Some(
            (minutes as int, 5int),
        ),
        two_digits(minutes / 60).len() == 2,
        two_digits(minutes % 60).len() == 2,
{
    let h = minutes / 60;
    let m = minutes % 60;
    lemma_two_digits(h);
    lemma_two_digits(m);
    let s = two_digits(h) + seq![':'] + two_digits(m) + r;
    assert(s[0] == digit((h / 10) as int));
    assert(s[1] == digit((h % 10) as int));
    assert(s[2] == ':');
    assert(s[3] == digit((m / 10) as int));
    assert(s[4] == digit((m % 10) as int));
}

/// A range as the note writes it reads back as a time token.
pub proof fn lemma_range_token(start: nat, end: nat, r: Seq<char>)
    requires
        start < 1440,
        end <= 1440,
        clear(r),
    ensures
        range_token(start, end).len() == 13,
        time_token(range_token(start, end) + r) == Some((start as int, 13int)),
        is_digit(range_token(start, end)[0]),
        is_digit(range_token(start, end)[12]),
{
    reveal(time_token);
    reveal_strlit(" - ");
    let tok = range_token(start, end);
    let s = tok + r;
    let first = two_digits(start / 60) + seq![':'] + two_digits(start % 60);
    let second = two_digits(end / 60) + seq![':'] + two_digits(end % 60);
    lemma_clock_of(start, " - "@ + second + r, 1439);
    lemma_clock_of(end, r, 1440);
    lemma_two_digits(start / 60);
    lemma_two_digits(end % 60);
    assert(s =~= first + (" - "@ + second + r));
    let rest = s.skip(5);
    assert(rest =~= " - "@ + second + r);
    assert(rest[0] == ' ' && rest[1] == '-' && rest[2] == ' ');
    lemma_lead_is(rest, 1);
    let behind = rest.skip(2);
    assert(behind =~= seq![' '] + second + r);
    assert(behind[1] == second[0]);
    lemma_lead_is(behind, 1);
    let tail = behind.skip(1);
    assert(tail =~= second + r);
    assert(tail.skip(5) =~= r);
    assert(tok[0] == first[0]);
    assert(tok[12] == second[4]);
}

/// A time token stays one where white space and a tilde follow it instead.
pub proof fn lemma_token_before_tilde(before: Seq<char>, x: Seq<char>)
    requires
        time_token(before) is Some,
        x.len() > 1,
        x[0] == ' ',
        x[1] == '~',
    ensures
        time_token(before.take((time_token(before)->0).1) + x) == time_token(before),
{
    reveal(time_token);
    let (start, n) = time_token(before)->0;
    lemma_time_token_len(before);
    let tok = before.take(n);
    let s = tok + x;
    let c = (clock(before, 1439)->0).1;
    let rest = before.skip(c);
    assert(forall|i: int| 0 <= i < n ==> s[i] == before[i]);
    let rest2 = s.skip(c);
    if range_end(rest) is Some && clear((range_end(rest)->0).1) {
        let after = (range_end(rest)->0).1;
        let at = lead(rest) as int;
        lemma_lead(rest);
        let behind = rest.skip(at + 1);
        let b = lead(behind) as int;
        lemma_lead(behind);
        let tail = behind.skip(b);
        let len = (clock(tail, 1440)->0).1;
        assert(n == c + at + 1 + b + len);
        assert(clock(s, 1439) == clock(before, 1439));
        assert forall|i: int| 0 <= i < at implies is_white(#[trigger] rest2[i]) by {
            assert(rest2[i] == rest[i]);
            assert(is_white(rest[i]));
        }
        assert(rest2[at] == rest[at]);
        lemma_lead_is(rest2, at);
        let behind2 = rest2.skip(at + 1);
        assert forall|i: int| 0 <= i < b implies is_white(#[trigger] behind2[i]) by {
            assert(behind2[i] == behind[i]);
            assert(is_white(behind[i]));
        }
        assert(behind2[b] == behind[b]);
        assert(is_digit(tail[0]));
        assert(tail[0] == behind[b]);
        lemma_lead_is(behind2, b);
        let tail2 = behind2.skip(b);
        assert(forall|i: int| 0 <= i < len ==> tail2[i] == tail[i]);
        assert(clock(tail2, 1440) == clock(tail, 1440));
        assert(tail2.skip(len) =~= x);
    } else {
        assert(n == c);
        assert(clock(s, 1439) == clock(before, 1439));
        assert(rest2 =~= x);
        lemma_lead_is(rest2, 1);
        assert(range_end(rest2) is None);
    }
}

} // verus!
