//! What holds of synced lines: a line brought in step with its event stays
//! untouched as long as the event stays the same.

use vstd::prelude::*;
use crate::clean::lemma_trim_ends;
use crate::day_plan::{clock, range_end};
use crate::format::is_digit;
use crate::line_laws::{
    good_mark, lemma_box_prefix, lemma_lead_append, lemma_line_marker, lemma_mark_chars,
    lemma_marker_is_mark, lemma_marker_text, lemma_range_token, lemma_task_head,
    lemma_task_head_more, lemma_time_token_append, lemma_token_before_tilde, mark, task_head,
};
use crate::synced_line::{
    aimed, all_hex, bare, box_end, cancelled, clear, content, event_line, event_token,
    has_old_time, kind_of_suffix, lemma_bare_shrinks, lemma_cancelled_len, lemma_synced,
    lemma_text_offset, lemma_time_token_len, named_text, own_words, plain, range_token, revived,
    suffix_of, synced, text_offset, time_token, token_len, token_of, trailing_of, untimed, Event,
};
use crate::text::{
    all_white, begins, body_len, find, is_white, lead, lemma_body, lemma_body_is, lemma_find_from,
    lemma_lead, lemma_lead_is, matches_at, trim, trim_end, trim_start,
};

verus! {

/// A text that ends in another character than white space is trimmed at its
/// front alone, and white space behind it makes no difference.
pub proof fn lemma_trim_tail(d: Seq<char>, g: Seq<char>)
    requires
        d.len() > 0,
        !is_white(d.last()),
        all_white(g),
    ensures
        lead(d) < d.len(),
        lead(d + g) == lead(d),
        trim(d) == trim_start(d),
        trim(d + g) == trim_start(d),
        trim_start(d).len() == d.len() - lead(d),
{
    lemma_lead(d);
    if lead(d) == d.len() {
        assert(is_white(d[d.len() - 1]));
    }
    lemma_lead_append(d, g);
    let n = lead(d) as int;
    let s = d.skip(n);
    assert(s.last() == d.last());
    lemma_body_is(s, s.len() as int);
    assert(s.take(s.len() as int) =~= s);
    let u = (d + g).skip(n);
    assert(u =~= s + g);
    assert forall|i: int| s.len() <= i < u.len() implies is_white(#[trigger] u[i]) by {
        assert(is_white(g[i - s.len()]));
    }
    assert(u[s.len() - 1] == s.last());
    lemma_body_is(u, s.len() as int);
    assert(u.take(s.len() as int) =~= s);
}

/// A line made of a task's front, a text, white space, a marker and white
/// space reads back as such.
#[verifier::spinoff_prover]
pub proof fn lemma_synced_of(
    head: Seq<char>,
    c: Seq<char>,
    g: Seq<char>,
    id: Seq<char>,
    suffix: Option<Seq<char>>,
    w: Seq<char>,
)
    requires
        task_head(head),
        all_white(g),
        all_white(w),
        good_mark(id, suffix),
        c.len() == 0 ==> g.len() == 0,
        c.len() > 0 ==> !is_white(c[0]) && !is_white(c.last()),
    ensures
        ({
            let line = head + c + g + mark(id, suffix) + w;
            let at = head.len() + c.len() + g.len();
            let p = synced(line)->0;
            let n = token_len(c);
            &&& synced(line) is Some
            &&& p.line == line
            &&& p.id == id
            &&& p.suffix == suffix
            &&& p.marker == (at as int, (at + mark(id, suffix).len()) as int)
            &&& p.content_start() == head.len()
            &&& 0 <= n <= c.len()
            &&& p.start == (match time_token(c) {
                Some((start, _)) => Some(start),
                None => None,
            })
            &&& p.words() == trim(c.skip(n))
            &&& p.token_text() == (if n > 0 {
                Some(c.take(n))
            } else {
                None
            })
            &&& p.text.1 == (if p.words().len() > 0 {
                (head.len() + c.len()) as int
            } else {
                at as int
            })
        }),
{
    let m = mark(id, suffix);
    let line = head + c + g + m + w;
    let at = (head.len() + c.len() + g.len()) as int;
    let h = head.len() as int;
    lemma_mark_chars(id, suffix);
    let rest = c + g + m + w;
    assert(line =~= head + rest);
    assert(!is_white(rest[0])) by {
        if c.len() > 0 {
            assert(rest[0] == c[0]);
        } else {
            assert(rest[0] == m[0]);
        }
    }
    lemma_task_head(head, rest);
    let a = head + c + g;
    assert(line =~= a + m + w);
    lemma_line_marker(a, id, suffix, w);
    let before = line.subrange(h, at);
    assert(before =~= c + g);
    lemma_time_token_append(c, g);
    lemma_time_token_len(c);
    let n = token_len(c);
    let d = c.skip(n);
    let after = before.skip(n);
    assert(after =~= d + g);
    let p = synced(line)->0;
    if d.len() > 0 {
        assert(d.last() == c.last());
        lemma_trim_tail(d, g);
        let k = lead(d) as int;
        assert(p.text == (h + n + k, h + n + k + (d.len() - k)));
        assert(p.words() =~= trim(d)) by {
            assert(line.subrange(p.text.0, p.text.1) =~= d.skip(k));
        }
    } else {
        assert(after =~= g);
        lemma_lead_is(g, g.len() as int);
        assert(trim_start(g) =~= Seq::<char>::empty());
        lemma_trim_ends(g);
        lemma_trim_ends(d);
        assert(p.text == (at, at));
        assert(p.words() =~= Seq::<char>::empty());
        assert(trim(d) =~= Seq::<char>::empty());
    }
    if n == 0 && c.len() > 0 {
        assert(d =~= c);
        lemma_lead_is(c, 0);
    }
    if n > 0 {
        assert(line.subrange(h, h + n) =~= c.take(n));
    }
}

/// The parts of a synced line.
#[verifier::spinoff_prover]
pub proof fn lemma_parts(line: Seq<char>)
    requires
        synced(line) is Some,
    ensures
        ({
            let p = synced(line)->0;
            let head = line.take(p.content_start());
            let g = line.subrange(p.text.1, p.marker.0);
            let w = line.skip(p.marker.1);
            let before = line.subrange(p.content_start(), p.marker.0);
            &&& 0 <= p.content_start() <= p.text.0 <= p.text.1 <= p.marker.0 <= p.marker.1
                <= line.len()
            &&& task_head(head)
            &&& all_white(g)
            &&& all_white(w)
            &&& good_mark(p.id, p.suffix)
            &&& line.subrange(p.marker.0, p.marker.1) == mark(p.id, p.suffix)
            &&& p.line == line
            &&& p.words().len() > 0 ==> !is_white(p.words()[0]) && !is_white(p.words().last())
            &&& p.token_text() == (if token_len(before) > 0 {
                Some(before.take(token_len(before)))
            } else {
                None
            })
            &&& p.token_text() is None ==> time_token(before) is None && before == p.words() + g
        }),
{
    lemma_synced(line);
    lemma_marker_text(line);
    lemma_text_offset(line);
    let p = synced(line)->0;
    let at = p.marker.0;
    let offset = text_offset(line)->0;
    let end = box_end(line)->0;
    let before = line.subrange(offset, at);
    lemma_time_token_len(before);
    let n = token_len(before);
    let after = before.skip(n);
    lemma_lead(after);
    let k = lead(after) as int;
    let t = trim_start(after);
    lemma_body(t);
    lemma_trim_ends(after);
    lemma_mark_chars(p.id, p.suffix);
    // The text starts where the checkbox's white space ends.
    assert(offset < line.len());
    assert(!is_white(line[offset]));
    assert(offset > end) by {
        reveal(text_offset);
        if offset == end {
            lemma_lead(line.skip(end));
        }
    }
    if n == 0 {
        assert(after =~= before);
        if before.len() > 0 {
            assert(before[0] == line[offset]);
            lemma_lead_is(before, 0);
        }
    }
    assert(p.content_start() == offset);
    let head = line.take(offset);
    assert(head.take(end) =~= line.take(end));
    lemma_box_prefix(line, head, end);
    assert forall|i: int| 0 <= i < head.skip(end).len() implies is_white(
        #[trigger] head.skip(end)[i],
    ) by {
        assert(is_white(line[end + i]));
    }
    let g = line.subrange(p.text.1, at);
    assert forall|i: int| 0 <= i < g.len() implies is_white(#[trigger] g[i]) by {
        assert(is_white(t[body_len(t) + i]));
    }
    assert(p.words() =~= trim(after));
    if n > 0 {
        assert(line.subrange(offset, offset + n) =~= before.take(n));
    } else {
        assert(before =~= p.words() + g);
        assert(time_token(before) is None);
    }
}

/// Whether a text stays as it is in a line of the event: it reads as the
/// event's, or the event has no title and there is nothing to take off.
pub open spec fn fits(event: Event, t: Seq<char>) -> bool {
    let shown = trim_start(t);
    if event.title.len() > 0 {
        trailing_of(shown, event.title) is Some && (event.time is None ==> !has_old_time(
            shown,
            event.title,
        ))
    } else if event.time is Some {
        cancelled(shown) is None
    } else {
        bare(shown) == shown
    }
}

/// Whether a line needs no change for the event: it carries the event's id,
/// and is in step or renamed.
pub open spec fn settled(line: Seq<char>, event: Event) -> bool {
    &&& synced(line) is Some
    &&& (synced(line)->0).id == event.id
    &&& match (synced(line)->0).update(event) {
        Some(text) => text == line,
        None => true,
    }
}

/// Whether an event can stand in a note: its id is hexadecimal, and its time
/// lies in the day.
pub open spec fn valid_event(event: Event) -> bool {
    &&& event.id.len() > 0
    &&& all_hex(event.id)
    &&& event.time matches Some((start, end)) ==> start < 1440 && end <= 1440
}

/// Whether a text neither begins nor ends with white space.
pub open spec fn tight(s: Seq<char>) -> bool {
    s.len() > 0 ==> !is_white(s[0]) && !is_white(s.last())
}

/// A text without white space at its ends is its own trimmed form.
pub proof fn lemma_tight(s: Seq<char>)
    requires
        tight(s),
    ensures
        trim_start(s) == s,
        trim_end(s) == s,
        trim(s) == s,
{
    lemma_lead_is(s, 0);
    lemma_body_is(s, s.len() as int);
    assert(s.skip(0) =~= s);
    assert(s.take(s.len() as int) =~= s);
}

/// The front of a text can be trimmed after its end.
proof fn lemma_trim_swap(s: Seq<char>)
    ensures
        trim_start(trim_end(s)) == trim(s),
{
    lemma_body(s);
    lemma_lead(s);
    let e = trim_end(s);
    let t = trim_start(s);
    let k = lead(s) as int;
    if k == s.len() {
        lemma_body_is(s, 0);
        assert(e =~= Seq::<char>::empty());
        assert(t =~= Seq::<char>::empty());
        lemma_tight(e);
    } else {
        let n = body_len(s) as int;
        if n <= k {
            assert(is_white(s[k]));
        }
        assert forall|i: int| 0 <= i < k implies is_white(#[trigger] e[i]) by {
            assert(e[i] == s[i]);
        }
        assert(e[k] == s[k]);
        lemma_lead_is(e, k);
        assert forall|i: int| n - k <= i < t.len() implies is_white(#[trigger] t[i]) by {
            assert(t[i] == s[i + k]);
        }
        assert(t[n - k - 1] == s[n - 1]);
        lemma_body_is(t, n - k);
        assert(e.skip(k) =~= t.take(n - k));
    }
}

/// The words behind a space are those of the text.
proof fn lemma_words_behind_space(t: Seq<char>)
    requires
        t.len() > 0,
        !is_white(t.last()),
    ensures
        trim(seq![' '] + t) == trim_start(t),
        trim_start(t).len() > 0,
        tight(trim_start(t)),
{
    let d = seq![' '] + t;
    let shown = trim_start(t);
    assert(is_white(' '));
    lemma_lead(t);
    assert(d.last() == t.last());
    lemma_trim_tail(d, Seq::empty());
    lemma_trim_tail(t, Seq::empty());
    let k = lead(t) as int;
    assert forall|i: int| 0 <= i < k + 1 implies is_white(#[trigger] d[i]) by {
        if i > 0 {
            assert(d[i] == t[i - 1]);
        }
    }
    assert(d[k + 1] == t[k]);
    lemma_lead_is(d, k + 1);
    assert(d.skip(k + 1) =~= shown);
    assert(shown.last() == t.last());
    assert(shown[0] == t[k]);
}

/// A line with a timed event's token and a text that fits is settled.
#[verifier::spinoff_prover]
proof fn lemma_timed_settles(
    head: Seq<char>,
    t: Seq<char>,
    g: Seq<char>,
    suffix: Option<Seq<char>>,
    w: Seq<char>,
    event: Event,
)
    requires
        task_head(head),
        all_white(g),
        all_white(w),
        valid_event(event),
        good_mark(event.id, suffix),
        suffix == suffix_of(event.kind) || (suffix is Some && kind_of_suffix(suffix->0) is None),
        t.len() > 0 ==> !is_white(t.last()),
        fits(event, t),
        event.time is Some,
    ensures
        settled(head + content(event_token(event), t) + g + mark(event.id, suffix) + w, event),
{
    let m = mark(event.id, suffix);
    let c = content(event_token(event), t);
    let line = head + c + g + m + w;
    let (start, end) = event.time->0;
    let tok = range_token(start as nat, end as nat);
    let d = if t.len() > 0 {
        seq![' '] + t
    } else {
        Seq::<char>::empty()
    };
    assert(is_white(' '));
    assert(c =~= tok + d);
    lemma_range_token(start as nat, end as nat, d);
    assert(c.skip(13) =~= d);
    assert(c[0] == tok[0]);
    assert(t.len() > 0 ==> c.last() == t.last());
    assert(t.len() == 0 ==> c.last() == tok[12]);
    lemma_synced_of(head, c, g, event.id, suffix, w);
    let p = synced(line)->0;
    assert(c.take(13) =~= tok);
    let shown = trim_start(t);
    if t.len() > 0 {
        lemma_words_behind_space(t);
    } else {
        lemma_lead(t);
        lemma_trim_ends(d);
        assert(trim(d) =~= shown);
    }
    assert(p.words() == shown);
    lemma_tight(shown);
    assert(p.new_marker(event.kind) is None);
    assert(p.token_text() == event_token(event));
    assert(p.aim(event) == Some(shown));
}

/// A line with an all-day event's text that fits is settled.
#[verifier::spinoff_prover]
proof fn lemma_untimed_settles(
    head: Seq<char>,
    t: Seq<char>,
    g: Seq<char>,
    suffix: Option<Seq<char>>,
    w: Seq<char>,
    event: Event,
)
    requires
        task_head(head),
        all_white(g),
        all_white(w),
        valid_event(event),
        good_mark(event.id, suffix),
        suffix == suffix_of(event.kind) || (suffix is Some && kind_of_suffix(suffix->0) is None),
        t.len() > 0 ==> !is_white(t.last()),
        fits(event, t),
        event.time is None,
    ensures
        settled(head + content(event_token(event), t) + g + mark(event.id, suffix) + w, event),
{
    let m = mark(event.id, suffix);
    let line = head + t + g + m + w;
    let k = lead(t) as int;
    let shown = trim_start(t);
    lemma_lead(t);
    if shown.len() == 0 {
        assert(t.len() == 0);
        lemma_task_head_more(head, g);
        let none = Seq::<char>::empty();
        assert(line =~= (head + g) + none + none + m + w);
        lemma_synced_of(head + g, none, none, event.id, suffix, w);
        let p = synced(line)->0;
        let region = line.subrange(p.content_start(), p.marker.0);
        assert(region =~= none);
        lemma_tight(none);
        assert(p.whole() =~= shown);
        assert(p.new_marker(event.kind) is None);
        assert(p.aim(event) == Some(shown));
    } else {
        let space = t.take(k);
        assert forall|i: int| 0 <= i < space.len() implies is_white(#[trigger] space[i]) by {
            assert(is_white(t[i]));
        }
        lemma_task_head_more(head, space);
        let front = head + space;
        assert(line =~= front + shown + g + m + w);
        assert(shown.last() == t.last());
        lemma_synced_of(front, shown, g, event.id, suffix, w);
        let p = synced(line)->0;
        let region = line.subrange(p.content_start(), p.marker.0);
        assert(region =~= shown + g);
        assert forall|i: int| shown.len() <= i < region.len() implies is_white(
            #[trigger] region[i],
        ) by {
            assert(is_white(g[i - shown.len()]));
        }
        assert(region[shown.len() - 1] == shown.last());
        lemma_body_is(region, shown.len() as int);
        assert(p.whole() =~= shown);
        assert(p.new_marker(event.kind) is None);
        assert(p.aim(event) == Some(shown));
    }
}

/// A line with an event's token and a text that fits is settled.
pub proof fn lemma_written_settles(
    head: Seq<char>,
    t: Seq<char>,
    g: Seq<char>,
    suffix: Option<Seq<char>>,
    w: Seq<char>,
    event: Event,
)
    requires
        task_head(head),
        all_white(g),
        all_white(w),
        valid_event(event),
        good_mark(event.id, suffix),
        suffix == suffix_of(event.kind) || (suffix is Some && kind_of_suffix(suffix->0) is None),
        t.len() > 0 ==> !is_white(t.last()),
        fits(event, t),
    ensures
        settled(head + content(event_token(event), t) + g + mark(event.id, suffix) + w, event),
{
    if event.time is Some {
        lemma_timed_settles(head, t, g, suffix, w, event);
    } else {
        lemma_untimed_settles(head, t, g, suffix, w, event);
    }
}

/// No mark is left at the front of a plain text.
proof fn lemma_plain(s: Seq<char>)
    ensures
        cancelled(trim(plain(s))) is None,
    decreases s.len(),
{
    if let Some((inner, trailing)) = cancelled(trim(s)) {
        lemma_cancelled_len(trim(s));
        lemma_trim_ends(s);
        lemma_plain(inner + trailing);
    }
}

/// Nothing more is taken off a bare text.
proof fn lemma_bare(s: Seq<char>)
    requires
        tight(s),
    ensures
        bare(bare(s)) == bare(s),
        tight(bare(s)),
    decreases s.len(),
{
    let behind = s.skip(token_len(s));
    let words = trim(behind);
    lemma_trim_ends(behind);
    match cancelled(words) {
        Some((inner, trailing)) => {
            lemma_bare_shrinks(s);
            let next = content(token_of(s), inner + trailing);
            lemma_trim_ends(next);
            lemma_bare(trim(next));
        },
        None => {
            if token_len(s) > 0 && token_len(words) == 0 {
                assert(words.skip(0) =~= words);
                lemma_tight(words);
            }
        },
    }
}

/// A title with words behind it reads as the title's.
proof fn lemma_revived(title: Seq<char>, words: Seq<char>)
    requires
        title.len() > 0,
        tight(title),
    ensures
        trailing_of(revived(title, words), title) is Some,
        tight(revived(title, words)),
{
    let x = if clear(words) {
        words
    } else {
        seq![' '] + words
    };
    assert(is_white(' '));
    let all = title + x;
    let n = title.len() as int;
    lemma_body(all);
    if body_len(all) < n {
        assert(is_white(all[n - 1]));
    }
    let t = revived(title, words);
    assert(t == trim_end(all));
    assert(t.subrange(0, n) =~= title);
    assert(t[0] == title[0]);
    if t.len() > n {
        assert(t.skip(n)[0] == x[0]);
    }
}

/// The text with a title reads as the title's.
proof fn lemma_titled(token: Option<Seq<char>>, words: Seq<char>, title: Seq<char>)
    requires
        tight(words),
        title.len() > 0,
        tight(title),
    ensures
        named_text(token, words, title) matches Some(t) ==> tight(t) && trailing_of(t, title) is Some,
{
    if trailing_of(words, title) is None {
        if let Some((inner, trailing)) = cancelled(words) {
            lemma_revived(title, own_words(token, inner, title) + trailing);
        }
    }
}

/// Without its old time a text still reads as the title's, and has none left.
proof fn lemma_untimed(t: Seq<char>, title: Seq<char>)
    requires
        tight(t),
        trailing_of(t, title) is Some,
    ensures
        tight(untimed(t, title)),
        trailing_of(untimed(t, title), title) is Some,
        !has_old_time(untimed(t, title), title),
{
    lemma_trim_ends(t.skip(token_len(t)));
}

/// What a line has to show for an event fits the event.
proof fn lemma_aim_fits(
    token: Option<Seq<char>>,
    words: Seq<char>,
    whole: Seq<char>,
    event: Event,
)
    requires
        tight(words),
        tight(whole),
        tight(event.title),
    ensures
        aimed(token, words, whole, event) matches Some(t) ==> fits(event, t) && (t.len() > 0
            ==> !is_white(t.last())),
{
    let title = event.title;
    if let Some(t) = aimed(token, words, whole, event) {
        if title.len() == 0 {
            if event.time is Some {
                lemma_plain(words);
                lemma_trim_swap(plain(words));
                lemma_body(plain(words));
            } else {
                lemma_bare(whole);
                lemma_tight(t);
            }
        } else {
            lemma_titled(None, words, title);
            lemma_titled(token, words, title);
            if event.time is None {
                let text = if trailing_of(whole, title) is Some {
                    whole
                } else {
                    named_text(token, words, title)->0
                };
                lemma_untimed(text, title);
            }
            lemma_tight(t);
        }
    }
}

/// The front of the line that a new event gets.
pub proof fn lemma_new_head()
    ensures
        task_head("- [ ] "@),
{
    reveal(box_end);
    reveal_strlit("- [ ] ");
    let head = "- [ ] "@;
    lemma_lead_is(head, 0);
    let after = head.skip(1);
    assert(after[0] == ' ');
    assert(after[1] == '[');
    lemma_lead_is(after, 1);
    assert(box_end(head) == Some(5int));
}

/// The line that a new event gets carries the event's id, and is settled.
pub proof fn lemma_event_line(event: Event)
    requires
        valid_event(event),
        tight(event.title),
    ensures
        synced(event_line(event)) is Some,
        (synced(event_line(event))->0).id == event.id,
        settled(event_line(event), event),
{
    lemma_marker_is_mark(event.id, event.kind);
    lemma_new_head();
    let head = "- [ ] "@;
    let c = content(event_token(event), event.title);
    let g = if c.len() == 0 {
        Seq::<char>::empty()
    } else {
        seq![' ']
    };
    let w = Seq::<char>::empty();
    let m = mark(event.id, suffix_of(event.kind));
    assert(event_line(event) =~= head + c + g + m + w);
    if let Some((start, end)) = event.time {
        lemma_range_token(start as nat, end as nat, Seq::empty());
        let tok = range_token(start as nat, end as nat);
        assert(c[0] == tok[0]);
        assert(event.title.len() > 0 ==> c.last() == event.title.last());
        assert(event.title.len() == 0 ==> c.last() == tok[12]);
    }
    lemma_synced_of(head, c, g, event.id, suffix_of(event.kind), w);
    lemma_tight(event.title);
    let title = event.title;
    assert(title.subrange(0, title.len() as int) =~= title);
    assert(title.skip(title.len() as int) =~= Seq::<char>::empty());
    if title.len() == 0 {
        reveal_strlit("~~");
        assert(token_len(title) == 0) by {
            lemma_time_token_len(title);
        }
        assert(title.skip(0) =~= title);
    }
    lemma_written_settles(head, event.title, g, suffix_of(event.kind), w, event);
}

/// The words and the whole text of a synced line have no white space at their
/// ends.
pub proof fn lemma_line_texts(line: Seq<char>)
    requires
        synced(line) is Some,
    ensures
        tight((synced(line)->0).words()),
        tight((synced(line)->0).whole()),
{
    lemma_parts(line);
    lemma_synced(line);
    lemma_text_offset(line);
    let p = synced(line)->0;
    let region = line.subrange(p.content_start(), p.marker.0);
    lemma_body(region);
    let whole = p.whole();
    if whole.len() > 0 {
        assert(whole[0] == line[p.content_start()]);
        assert(!is_white(line[p.content_start()])) by {
            if p.token is None && p.words().len() > 0 {
                assert(p.words()[0] == line[p.text.0]);
            }
        }
    }
}

/// A line brought in step with its event is settled, and so is one whose title
/// was rewritten.
#[verifier::spinoff_prover]
pub proof fn lemma_update_settles(line: Seq<char>, event: Event)
    requires
        synced(line) is Some,
        (synced(line)->0).id == event.id,
        valid_event(event),
        tight(event.title),
    ensures
        (synced(line)->0).update(event) matches Some(l) ==> settled(l, event),
        (synced(line)->0).update(event) is None ==> settled(line, event),
{
    lemma_parts(line);
    let p = synced(line)->0;
    if let Some(t) = p.aim(event) {
        lemma_line_texts(line);
        lemma_aim_fits(p.token_text(), p.words(), p.whole(), event);
        let l = p.update(event)->0;
        if l != line {
            let head = line.take(p.content_start());
            let g = line.subrange(p.text.1, p.marker.0);
            let w = line.skip(p.marker.1);
            let mk = p.new_marker(event.kind);
            lemma_marker_is_mark(event.id, event.kind);
            let suffix = match mk {
                Some(_) => suffix_of(event.kind),
                None => p.suffix,
            };
            assert(l =~= head + content(event_token(event), t) + g + mark(event.id, suffix) + w);
            lemma_written_settles(head, t, g, suffix, w, event);
        }
    }
}

/// A time token ends in another character than white space.
pub proof fn lemma_token_ends(c: Seq<char>)
    requires
        token_len(c) > 0,
    ensures
        !is_white(c.take(token_len(c)).last()),
{
    reveal(time_token);
    lemma_time_token_len(c);
    let n = token_len(c);
    let len = (clock(c, 1439)->0).1;
    let rest = c.skip(len);
    if range_end(rest) is Some && clear((range_end(rest)->0).1) {
        let at = lead(rest) as int;
        lemma_lead(rest);
        let behind = rest.skip(at + 1);
        let b = lead(behind) as int;
        lemma_lead(behind);
        let tail = behind.skip(b);
        let more = (clock(tail, 1440)->0).1;
        assert(n == len + at + 1 + b + more);
        assert(c[n - 1] == tail[more - 1]);
        assert(is_digit(tail[more - 1]));
    } else {
        assert(n == len);
        assert(is_digit(c[n - 1]));
    }
    assert(c.take(n).last() == c[n - 1]);
}

/// A line struck through as cancelled reads back as such, with the same id.
#[verifier::spinoff_prover]
pub proof fn lemma_cancelled_line(line: Seq<char>)
    requires
        synced(line) is Some,
    ensures
        ({
            let p = synced(line)->0;
            let l = p.cancelled_line();
            &&& synced(l) is Some
            &&& (synced(l)->0).id == p.id
            &&& cancelled((synced(l)->0).words()) is Some
            &&& (synced(l)->0).words() == "~~"@ + p.words() + "~~ (cancelled)"@
            &&& (synced(l)->0).token_text() == p.token_text()
        }),
{
    lemma_parts(line);
    let p = synced(line)->0;
    let head = line.take(p.content_start());
    let g = line.subrange(p.text.1, p.marker.0);
    let w = line.skip(p.marker.1);
    let before = line.subrange(p.content_start(), p.marker.0);
    let t = "~~"@ + p.words() + "~~ (cancelled)"@;
    let c = content(p.token_text(), t);
    reveal_strlit("~~");
    reveal_strlit("~~ (cancelled)");
    assert(t[0] == '~' && t.last() == ')');
    assert(p.cancelled_line() =~= head + c + g + mark(p.id, p.suffix) + w);
    lemma_lead_is(t, 0);
    lemma_trim_tail(t, Seq::empty());
    assert(t.skip(0) =~= t);
    if p.token_text() is Some {
        let n = token_len(before);
        let tok = before.take(n);
        lemma_time_token_len(before);
        let x = seq![' '] + t;
        assert(c =~= tok + x);
        lemma_token_before_tilde(before, x);
        assert(c.skip(n) =~= x);
        assert(c.take(n) =~= tok);
        assert(is_white(' '));
        assert(x[1] == t[0]);
        lemma_lead_is(x, 1);
        assert(x.last() == t.last());
        lemma_trim_tail(x, Seq::empty());
        assert(x.skip(1) =~= t);
        assert(c[0] == before[0]);
        assert(is_digit(before[0])) by {
            reveal(time_token);
        }
        assert(c.last() == t.last());
    } else {
        assert(c == t);
        assert(time_token(t) is None) by {
            reveal(time_token);
        }
    }
    lemma_synced_of(head, c, g, p.id, p.suffix, w);
    let q = synced(p.cancelled_line())->0;
    assert(q.words() == t);
    assert(t.subrange(0, 2) =~= "~~"@);
    let inner = t.skip(2);
    let k = p.words().len() as int;
    assert(inner.subrange(k, k + 14) =~= "~~ (cancelled)"@);
    lemma_find_from(inner, "~~ (cancelled)"@, 0);
    if find(inner, "~~ (cancelled)"@) is None {
        assert(!matches_at(inner, "~~ (cancelled)"@, k));
    }
}

} // verus!
