//! What holds of the lines that the reconciler rewrites and writes: they say what
//! their events say, and no event goes without one.

use vstd::prelude::*;
use crate::calendar::{
    child_section, clean_title, cleaned, event_lines, has_id, hashes, inserts_at, lemma_normal_ids,
    normal, section_block, CalendarEvent, Edit,
};
use crate::calendar_laws::{
    event_of, lemma_bounds, lemma_first_settled, lemma_line_row, lemma_new_event_settled,
    lemma_normal_writable, lemma_raw_edits, lemma_section_edited, new_section, raw_edits,
};
use crate::day_plan::{first_row, lemma_first_row, planner, Section};
use crate::edit_laws::lemma_sorted_edits;
use crate::line_laws::{lemma_marker_is_mark, lemma_range_token, mark};
use crate::order_laws::{event_minute, line_minute};
use crate::reconcile::{
    carries, edited, line_row, outcome, renames, rewritten, section_edits, section_name,
};
use crate::settle::{
    lemma_cancelled_line, lemma_line_texts, lemma_new_head, lemma_parts, lemma_synced_of,
    lemma_tight, tight, valid_event,
};
use crate::sort::{lemma_sorted_members, sorted};
use crate::synced_line::{
    cancelled, clear, content, event_line, event_token, kind_of_suffix, lemma_synced,
    lemma_time_token_len, named_text, range_token, suffix_of, synced, time_token, token_len,
    trailing_of, untimed, Event,
};
use crate::text::{
    begins, is_white, lead, lemma_body, lemma_body_is, lemma_lead, lemma_lead_is, trim, trim_end,
    trim_start,
};

verus! {

/// The line that an event got, taken apart.
#[verifier::spinoff_prover]
#[verifier::rlimit(60)]
proof fn lemma_event_parts(event: Event)
    requires
        valid_event(event),
        tight(event.title),
        event.title.len() > 0,
        event.time is Some || time_token(event.title) is None,
    ensures
        ({
            let line = event_line(event);
            let p = synced(line)->0;
            let m = mark(event.id, suffix_of(event.kind));
            let c = content(event_token(event), event.title);
            &&& synced(line) is Some
            &&& p.line == line
            &&& p.id == event.id
            &&& p.suffix == suffix_of(event.kind)
            &&& p.token_text() == event_token(event)
            &&& p.words() == event.title
            &&& p.whole() == c
            &&& line == "- [ ] "@ + c + seq![' '] + m
            &&& line.take(p.content_start()) == "- [ ] "@
            &&& line.subrange(p.text.1, p.marker.0) == seq![' ']
            &&& line.skip(p.marker.1) == Seq::<char>::empty()
            &&& line.subrange(p.marker.0, p.marker.1) == m
        }),
{
    lemma_marker_is_mark(event.id, event.kind);
    lemma_new_head();
    let head = "- [ ] "@;
    let title = event.title;
    let c = content(event_token(event), title);
    let g = seq![' '];
    let w = Seq::<char>::empty();
    let m = mark(event.id, suffix_of(event.kind));
    let line = event_line(event);
    assert(is_white(' '));
    assert(c.len() > 0);
    assert(line =~= head + c + g + m + w);
    assert(line =~= head + c + seq![' '] + m);
    lemma_tight(title);
    if let Some((start, end)) = event.time {
        let tok = range_token(start as nat, end as nat);
        let r = seq![' '] + title;
        lemma_range_token(start as nat, end as nat, r);
        assert(c =~= tok + r);
        assert(c[0] == tok[0]);
        assert(c.last() == title.last());
        assert(c.skip(13) =~= r);
        assert(c.take(13) =~= tok);
        assert(r[1] == title[0]);
        lemma_lead_is(r, 1);
        assert(r.skip(1) =~= title);
        lemma_body_is(title, title.len() as int);
        assert(title.take(title.len() as int) =~= title);
        assert(trim(r) == title);
    } else {
        assert(c.skip(0) =~= c);
    }
    lemma_synced_of(head, c, g, event.id, suffix_of(event.kind), w);
    let p = synced(line)->0;
    assert(line.take(p.content_start()) =~= head);
    assert(line.subrange(p.text.1, p.marker.0) =~= seq![' ']);
    assert(line.skip(p.marker.1) =~= w);
    assert(line.subrange(p.marker.0, p.marker.1) =~= m);
    let region = line.subrange(p.content_start(), p.marker.0);
    assert(region =~= c + g);
    assert(region[c.len() - 1] == c.last());
    lemma_body_is(region, c.len() as int);
    assert(region.take(c.len() as int) =~= c);
}

/// A line that nobody touched becomes the line of its event, however the event
/// moved or changed its kind: an event that gets another time, becomes an all-day
/// one or gets a time has the line that it would have got at first. A title that
/// begins with a time is set aside where the event is, or was, an all-day one.
#[verifier::spinoff_prover]
pub proof fn an_untouched_line_follows_its_event(before: Event, after: Event)
    requires
        valid_event(before),
        valid_event(after),
        before.id == after.id,
        before.title == after.title,
        tight(before.title),
        before.title.len() > 0,
        (before.time is Some && after.time is Some) || time_token(before.title) is None,
    ensures
        synced(event_line(before)) is Some,
        (synced(event_line(before))->0).update(after) == Some(event_line(after)),
{
    let line = event_line(before);
    let p = synced(line)->0;
    let title = before.title;
    lemma_event_parts(before);
    lemma_event_parts(after);
    lemma_marker_is_mark(after.id, after.kind);
    lemma_tight(title);
    assert(title.subrange(0, title.len() as int) =~= title);
    assert(title.skip(title.len() as int) =~= Seq::<char>::empty());
    assert(trailing_of(title, title) is Some);
    if after.time is None {
        let whole = p.whole();
        assert(untimed(title, title) == title);
        if trailing_of(whole, title) is Some {
            if before.time is Some {
                let (start, end) = before.time->0;
                let tok = range_token(start as nat, end as nat);
                let r = seq![' '] + title;
                assert(is_white(' '));
                lemma_range_token(start as nat, end as nat, r);
                assert(whole =~= tok + r);
                assert(whole.skip(13) =~= r);
                assert(r[1] == title[0]);
                lemma_lead_is(r, 1);
                assert(r.skip(1) =~= title);
                lemma_body_is(title, title.len() as int);
                assert(title.take(title.len() as int) =~= title);
            }
        }
        assert(p.aim(after) == Some(title));
    } else {
        assert(p.aim(after) == Some(title));
    }
    assert(kind_of_suffix("focus"@) is Some && kind_of_suffix("ooo"@) is Some);
    assert(p.rebuild(event_token(after), title, p.new_marker(after.kind)) =~= event_line(after));
}

/// Whether a line says what a timed event says: its time, its title with
/// whatever stood behind it, and its kind, unless the marker records something
/// that is not known; the front of the line and what stands behind the marker
/// are those of the line that it came from.
pub open spec fn shows_event(line: Seq<char>, l: Seq<char>, event: Event) -> bool {
    let p = synced(line)->0;
    let q = synced(l)->0;
    let (start, end) = event.time->0;
    &&& synced(l) is Some
    &&& q.id == event.id
    &&& q.token_text() == Some(range_token(start as nat, end as nat))
    &&& line_minute(l) == event_minute(event)
    &&& begins(q.words(), event.title)
    &&& event.title.len() > 0 ==> clear(q.words().skip(event.title.len() as int))
    &&& q.suffix == suffix_of(event.kind) || (q.suffix == p.suffix && q.suffix is Some
        && kind_of_suffix(q.suffix->0) is None)
    &&& begins(l, line.take(p.content_start()))
    &&& l.skip(q.marker.1) == line.skip(p.marker.1)
}

/// The line of a timed event, once it is brought in step, says what the event
/// says.
pub proof fn an_updated_line_shows_the_event(line: Seq<char>, event: Event)
    requires
        synced(line) is Some,
        (synced(line)->0).id == event.id,
        valid_event(event),
        tight(event.title),
        event.time is Some,
        (synced(line)->0).update(event) is Some,
    ensures
        shows_event(line, (synced(line)->0).update(event)->0, event),
{
    let p = synced(line)->0;
    let t = p.aim(event)->0;
    if p.new_marker(event.kind) is None && p.shown(event) == (event_token(event), t) {
        lemma_in_step_shows(line, event);
    } else {
        lemma_rebuilt_shows(line, event);
    }
}

#[verifier::spinoff_prover]
proof fn lemma_in_step_shows(line: Seq<char>, event: Event)
    requires
        synced(line) is Some,
        (synced(line)->0).id == event.id,
        valid_event(event),
        tight(event.title),
        event.time is Some,
        (synced(line)->0).aim(event) is Some,
        (synced(line)->0).new_marker(event.kind) is None,
        (synced(line)->0).shown(event) == (
            event_token(event),
            (synced(line)->0).aim(event)->0,
        ),
    ensures
        shows_event(line, line, event),
{
    let p = synced(line)->0;
    let t = p.aim(event)->0;
    let (start, end) = event.time->0;
    let tok = range_token(start as nat, end as nat);
    let title = event.title;
    lemma_parts(line);
    lemma_synced(line);
    lemma_line_texts(line);
    let before = line.subrange(p.content_start(), p.marker.0);
    lemma_time_token_len(before);
    let n = token_len(before);
    lemma_range_token(start as nat, end as nat, Seq::empty());
    assert(before.take(n) == tok);
    lemma_token_clear(before);
    lemma_range_token(start as nat, end as nat, before.skip(n));
    assert(before =~= tok + before.skip(n));
    lemma_aim_begins(p.words(), title, t, event);
    assert(line.subrange(0, p.content_start()) =~= line.take(p.content_start()));
    lemma_start_of_region(line);
}

#[verifier::spinoff_prover]
#[verifier::rlimit(50)]
proof fn lemma_rebuilt_shows(line: Seq<char>, event: Event)
    requires
        synced(line) is Some,
        (synced(line)->0).id == event.id,
        valid_event(event),
        tight(event.title),
        event.time is Some,
        (synced(line)->0).aim(event) is Some,
    ensures
        shows_event(
            line,
            (synced(line)->0).rebuild(
                event_token(event),
                (synced(line)->0).aim(event)->0,
                (synced(line)->0).new_marker(event.kind),
            ),
            event,
        ),
{
    let p = synced(line)->0;
    let t = p.aim(event)->0;
    let mk = p.new_marker(event.kind);
    let l = p.rebuild(event_token(event), t, mk);
    let (start, end) = event.time->0;
    let tok = range_token(start as nat, end as nat);
    let title = event.title;
    lemma_parts(line);
    lemma_line_texts(line);
    let head = line.take(p.content_start());
    let g = line.subrange(p.text.1, p.marker.0);
    let w = line.skip(p.marker.1);
    lemma_marker_is_mark(event.id, event.kind);
    let suffix = match mk {
        Some(_) => suffix_of(event.kind),
        None => p.suffix,
    };
    lemma_good_suffix(event.id, event.kind, suffix, p.suffix, p.id);
    let c = content(event_token(event), t);
    assert(l =~= head + c + g + mark(event.id, suffix) + w);
    lemma_aim_begins(p.words(), title, t, event);
    let r = if t.len() > 0 {
        seq![' '] + t
    } else {
        Seq::<char>::empty()
    };
    assert(is_white(' '));
    lemma_range_token(start as nat, end as nat, r);
    assert(c =~= tok + r);
    assert(c.skip(13) =~= r);
    assert(c.take(13) =~= tok);
    assert(c[0] == tok[0]);
    assert(t.len() > 0 ==> c.last() == t.last());
    assert(t.len() == 0 ==> c.last() == tok[12]);
    lemma_synced_of(head, c, g, event.id, suffix, w);
    let q = synced(l)->0;
    lemma_words_of(t);
    assert(q.words() == trim(r));
    if t.len() == 0 {
        lemma_lead_is(t, 0);
        assert(trim_start(t) =~= trim(r));
    }
    assert(begins(q.words(), title));
    assert(l.subrange(0, head.len() as int) =~= head);
    assert(l.skip(q.marker.1) =~= w);
}

/// A text behind a space.
proof fn lemma_words_of(t: Seq<char>)
    requires
        t.len() > 0 ==> !is_white(t.last()),
    ensures
        t.len() > 0 ==> trim(seq![' '] + t) == trim_start(t),
        t.len() > 0 && !is_white(t[0]) ==> trim_start(t) == t,
        trim(Seq::<char>::empty()) == Seq::<char>::empty(),
{
    let none = Seq::<char>::empty();
    lemma_lead_is(none, 0);
    assert(none.skip(0) =~= none);
    lemma_body_is(none, 0);
    assert(none.take(0) =~= none);
    if t.len() > 0 {
        let d = seq![' '] + t;
        assert(is_white(' '));
        assert(d.last() == t.last());
        crate::settle::lemma_trim_tail(d, none);
        assert(d + none =~= d);
        lemma_lead(t);
        let k = lead(t) as int;
        if k == t.len() {
            assert(is_white(t[t.len() - 1]));
        }
        assert forall|i: int| 0 <= i < k + 1 implies is_white(#[trigger] d[i]) by {
            if i > 0 {
                assert(d[i] == t[i - 1]);
            }
        }
        assert(d[k + 1] == t[k]);
        lemma_lead_is(d, k + 1);
        assert(d.skip(k + 1) =~= t.skip(k));
        if !is_white(t[0]) {
            lemma_lead_is(t, 0);
            assert(t.skip(0) =~= t);
        }
    }
}

/// White space or nothing follows a time token.
proof fn lemma_token_clear(text: Seq<char>)
    requires
        token_len(text) > 0,
    ensures
        clear(text.skip(token_len(text))),
{
    reveal(time_token);
    lemma_time_token_len(text);
    let len = (crate::day_plan::clock(text, 1439)->0).1;
    let rest = text.skip(len);
    if let Some((_, after)) = crate::day_plan::range_end(rest) {
        if clear(after) {
            let at = lead(rest) as int;
            lemma_lead(rest);
            let behind = rest.skip(at + 1);
            let b = lead(behind) as int;
            lemma_lead(behind);
            let tail = behind.skip(b);
            let more = (crate::day_plan::clock(tail, 1440)->0).1;
            assert(text.skip(token_len(text)) =~= after);
        } else {
            assert(text.skip(token_len(text)) =~= rest);
        }
    } else {
        assert(text.skip(token_len(text)) =~= rest);
    }
}

/// The start of a synced line is that of the time token that its text begins
/// with.
proof fn lemma_start_of_region(line: Seq<char>)
    requires
        synced(line) is Some,
        (synced(line)->0).token is Some,
    ensures
        ({
            let p = synced(line)->0;
            let before = line.subrange(p.content_start(), p.marker.0);
            &&& time_token(before) is Some
            &&& p.start == Some((time_token(before)->0).0)
        }),
{
    lemma_synced(line);
}

/// The suffix that a rewritten line has is one that a marker may carry.
proof fn lemma_good_suffix(
    id: Seq<char>,
    kind: crate::synced_line::EventKind,
    suffix: Option<Seq<char>>,
    was: Option<Seq<char>>,
    own: Seq<char>,
)
    requires
        crate::line_laws::good_mark(own, was),
        id == own,
        suffix == was || suffix == suffix_of(kind),
    ensures
        crate::line_laws::good_mark(id, suffix),
{
    reveal_strlit("focus");
    reveal_strlit("ooo");
}

/// What a line has to show for a timed event begins with the event's title.
#[verifier::spinoff_prover]
#[verifier::rlimit(40)]
proof fn lemma_aim_begins(words: Seq<char>, title: Seq<char>, t: Seq<char>, event: Event)
    requires
        tight(words),
        tight(title),
        title == event.title,
        event.time is Some,
        title.len() > 0 ==> named_text(None, words, title) == Some(t),
        title.len() == 0 ==> t == trim_end(crate::synced_line::plain(words)),
    ensures
        t.len() > 0 ==> !is_white(t.last()),
        begins(t, title),
        title.len() > 0 ==> t.len() > 0 && !is_white(t[0]) && clear(t.skip(title.len() as int)),
        begins(trim_start(t), title),
{
    lemma_lead(t);
    if title.len() == 0 {
        let s = crate::synced_line::plain(words);
        lemma_body(s);
        if t.len() > 0 {
            assert(t.last() == s[t.len() - 1]);
        }
        assert(t.subrange(0, 0) =~= title);
        assert(trim_start(t).subrange(0, 0) =~= title);
    } else {
        if trailing_of(words, title) is Some {
        } else {
            let (inner, trailing) = cancelled(words)->0;
            let own = crate::synced_line::own_words(None, inner, title) + trailing;
            let full = title + (if clear(own) {
                own
            } else {
                seq![' '] + own
            });
            lemma_body(full);
            assert(full[title.len() - 1] == title.last());
            let k = crate::text::body_len(full) as int;
            if k < title.len() {
                assert(is_white(full[title.len() - 1]));
            }
            assert(t == full.take(k));
            assert(t.subrange(0, title.len() as int) =~= title);
            assert(t.last() == full[k - 1]);
            if k > title.len() {
                assert(t.skip(title.len() as int)[0] == full[title.len() as int]);
                assert(is_white(' '));
            }
        }
        assert(t[0] == t.subrange(0, title.len() as int)[0]);
        lemma_lead_is(t, 0);
        assert(t.skip(0) =~= t);
    }
}

/// Of the events that share an id the first one is written, with a clean title,
/// and every id is.
pub proof fn the_first_event_of_an_id_counts(events: Seq<Event>, k: int)
    requires
        0 <= k < events.len(),
        forall|i: int| 0 <= i < k ==> (#[trigger] events[i]).id != events[k].id,
    ensures
        exists|i: int|
            0 <= i < normal(events).len() && {
                let e = #[trigger] normal(events)[i];
                &&& e.id == events[k].id
                &&& e.time == events[k].time
                &&& e.kind == events[k].kind
                &&& e.title == clean_title(events[k].title)
            },
    decreases events.len(),
{
    let rest = events.drop_last();
    let n = normal(rest);
    let all = normal(events);
    if k < rest.len() {
        assert forall|i: int| 0 <= i < k implies (#[trigger] rest[i]).id != rest[k].id by {
            assert(rest[i] == events[i]);
        }
        the_first_event_of_an_id_counts(rest, k);
        let i = choose|i: int|
            0 <= i < n.len() && {
                let e = #[trigger] n[i];
                &&& e.id == rest[k].id
                &&& e.time == rest[k].time
                &&& e.kind == rest[k].kind
                &&& e.title == clean_title(rest[k].title)
            };
        assert(all[i] == n[i]);
    } else {
        if has_id(rest, events[k].id) {
            let i = choose|i: int| 0 <= i < rest.len() && #[trigger] rest[i].id == events[k].id;
            assert(events[i].id == events[k].id);
        }
        assert(all[all.len() - 1] == cleaned(events[k]));
    }
}

/// Whether no line of a section carries an id.
pub open spec fn has_no_line(lines: Seq<Seq<char>>, from: int, to: int, id: Seq<char>) -> bool {
    forall|k: int|
        from <= k < to && synced(#[trigger] lines[k]) is Some ==> (synced(lines[k])->0).id != id
}

/// No event goes without a line: once the edits are applied, the section has a
/// line that carries the event's id, and where none did before, that line is the
/// event's own.
#[verifier::spinoff_prover]
#[verifier::rlimit(40)]
pub proof fn every_event_has_its_line(
    lines: Seq<Seq<char>>,
    events: Seq<Event>,
    section: Seq<char>,
    planner_heading: Seq<char>,
    from: int,
    to: int,
    i: int,
)
    requires
        forall|k: int| 0 <= k < events.len() ==> valid_event(#[trigger] events[k]),
        planner(lines, planner_heading) is Some,
        child_section(lines, planner(lines, planner_heading)->0, section_name(section)) == Some(
            (from, to),
        ),
        0 <= i < normal(events).len(),
    ensures
        ({
            let got = edited(
                lines,
                (outcome(lines, events, section, planner_heading)->0).edits,
            );
            let event = normal(events)[i];
            exists|r: int|
                from <= r < got.len() - (lines.len() - to) && synced(#[trigger] got[r]) is Some && (
                synced(got[r])->0).id == event.id && (has_no_line(lines, from, to, event.id)
                    ==> got[r] == event_line(event))
        }),
{
    let n = normal(events);
    lemma_normal_writable(events);
    lemma_bounds(lines, planner_heading, section_name(section));
    lemma_section_edited(lines, from, to, n);
    lemma_first_settled(lines, from, to, n, i);
    let new = new_section(lines, from, to, n);
    let at = first_row(new, carries(n[i].id), 0, new.len() as int);
    lemma_first_row(new, carries(n[i].id), 0, new.len() as int);
    let got = edited(lines, section_edits(lines, from, to, n));
    assert(got[from + at] == new[at]);
    assert(carries(n[i].id)(new[at]));
    assert((outcome(lines, events, section, planner_heading)->0).edits == section_edits(
        lines,
        from,
        to,
        n,
    ));
    if has_no_line(lines, from, to, n[i].id) {
        lemma_line_row(lines, from, to, n[i].id);
        let row = line_row(lines, from, to, n[i].id);
        if row < to {
            assert(carries(n[i].id)(lines[row]));
        }
        lemma_new_event_settled(lines, from, to, n, i);
    }
}

/// A line whose event is gone is struck through, its words and its time kept; one
/// that is struck through already stays as it is.
#[verifier::spinoff_prover]
#[verifier::rlimit(40)]
pub proof fn lines_without_an_event_are_struck(
    lines: Seq<Seq<char>>,
    events: Seq<Event>,
    section: Seq<char>,
    planner_heading: Seq<char>,
    from: int,
    to: int,
    r: int,
)
    requires
        forall|k: int| 0 <= k < events.len() ==> valid_event(#[trigger] events[k]),
        planner(lines, planner_heading) is Some,
        child_section(lines, planner(lines, planner_heading)->0, section_name(section)) == Some(
            (from, to),
        ),
        from <= r < to,
        synced(lines[r]) is Some,
        forall|k: int|
            0 <= k < events.len() ==> (#[trigger] events[k]).id != (synced(lines[r])->0).id,
    ensures
        ({
            let edits = (outcome(lines, events, section, planner_heading)->0).edits;
            let p = synced(lines[r])->0;
            let l = rewritten(edits, r, lines[r]);
            let q = synced(l)->0;
            &&& synced(l) is Some
            &&& q.id == p.id
            &&& q.token_text() == p.token_text()
            &&& cancelled(p.words()) is Some ==> l == lines[r]
            &&& cancelled(p.words()) is None ==> q.words() == "~~"@ + p.words()
                + "~~ (cancelled)"@
        }),
{
    let n = normal(events);
    let p = synced(lines[r])->0;
    lemma_normal_writable(events);
    lemma_bounds(lines, planner_heading, section_name(section));
    lemma_raw_edits(lines, from, to, n, r);
    lemma_sorted_edits(raw_edits(lines, from, to, n), r, lines[r]);
    lemma_normal_ids(events, p.id);
    assert(!has_id(events, p.id));
    lemma_cancelled_line(lines[r]);
}

/// The first line that carries the id of a timed event says what the event says
/// once the edits are applied, unless its title was rewritten, and then it is as
/// it was.
#[verifier::spinoff_prover]
#[verifier::rlimit(40)]
pub proof fn lines_are_brought_in_step(
    lines: Seq<Seq<char>>,
    events: Seq<Event>,
    section: Seq<char>,
    planner_heading: Seq<char>,
    from: int,
    to: int,
    r: int,
    i: int,
)
    requires
        forall|k: int| 0 <= k < events.len() ==> valid_event(#[trigger] events[k]),
        planner(lines, planner_heading) is Some,
        child_section(lines, planner(lines, planner_heading)->0, section_name(section)) == Some(
            (from, to),
        ),
        from <= r < to,
        0 <= i < normal(events).len(),
        normal(events)[i].time is Some,
        synced(lines[r]) is Some,
        (synced(lines[r])->0).id == normal(events)[i].id,
        forall|k: int|
            from <= k < r && synced(#[trigger] lines[k]) is Some ==> (synced(lines[k])->0).id
                != normal(events)[i].id,
    ensures
        ({
            let edits = (outcome(lines, events, section, planner_heading)->0).edits;
            let l = rewritten(edits, r, lines[r]);
            let event = normal(events)[i];
            if (synced(lines[r])->0).update(event) is Some {
                shows_event(lines[r], l, event)
            } else {
                l == lines[r]
            }
        }),
{
    let n = normal(events);
    let event = n[i];
    lemma_normal_writable(events);
    lemma_bounds(lines, planner_heading, section_name(section));
    lemma_raw_edits(lines, from, to, n, r);
    lemma_sorted_edits(raw_edits(lines, from, to, n), r, lines[r]);
    lemma_line_row(lines, from, to, event.id);
    let row = line_row(lines, from, to, event.id);
    if row < r {
        assert(carries(event.id)(lines[row]));
    } else if r < row {
        assert(!carries(event.id)(lines[r]));
    }
    assert(has_id(n, event.id));
    let k = choose|k: int| 0 <= k < n.len() && #[trigger] n[k].id == event.id;
    if k < i {
        assert(n[k].id != n[i].id);
    } else if i < k {
        assert(n[i].id != n[k].id);
    }
    assert(event_of(n, event.id) == event);
    assert(valid_event(event));
    if (synced(lines[r])->0).update(event) is Some {
        an_updated_line_shows_the_event(lines[r], event);
    }
}

/// A line is found unchanged by its title alone: it is brought in step wherever
/// its words are the event's title with nothing, or white space, behind it.
pub proof fn titles_decide_what_is_renamed(line: Seq<char>, event: Event)
    requires
        synced(line) is Some,
        event.time is Some,
        event.title.len() > 0,
    ensures
        ({
            let words = (synced(line)->0).words();
            &&& begins(words, event.title) && clear(words.skip(event.title.len() as int)) ==> (
            synced(line)->0).update(event) is Some
            &&& (synced(line)->0).update(event) is None <==> !(begins(words, event.title) && clear(
                words.skip(event.title.len() as int),
            )) && cancelled(words) is None
        }),
{
}

/// A section that is created has a heading one level below the planner's, and
/// under it the line of every event, in the order of their starts.
#[verifier::spinoff_prover]
#[verifier::rlimit(40)]
pub proof fn a_new_section_lists_every_event(
    lines: Seq<Seq<char>>,
    events: Seq<Event>,
    section: Seq<char>,
    planner_heading: Seq<char>,
)
    requires
        planner(lines, planner_heading) is Some,
        child_section(
            lines,
            planner(lines, planner_heading)->0,
            section_name(section),
        ) is None,
        normal(events).len() > 0,
        (planner(lines, planner_heading)->0).level < 6,
    ensures
        ({
            let plan = planner(lines, planner_heading)->0;
            let edits = (outcome(lines, events, section, planner_heading)->0).edits;
            let n = normal(events);
            &&& forall|j: int|
                0 <= j < edits.len() ==> !(#[trigger] edits[j]).replaces && edits[j].row
                    == plan.end
            &&& exists|h: int| 0 <= h <= 1 && #[trigger] lists(edits, h, plan, section, n)
        }),
{
    let plan = planner(lines, planner_heading)->0;
    let edits = (outcome(lines, events, section, planner_heading)->0).edits;
    let n = normal(events);
    let s = sorted::<CalendarEvent>(n);
    let block = section_block(lines, plan, section_name(section), n);
    assert(edits == inserts_at(plan.end, block));
    let h: int = if plan.end > 0 && !crate::calendar::is_blank(lines[plan.end - 1]) {
        1
    } else {
        0
    };
    crate::sort::lemma_sorted_keeps::<CalendarEvent>(n);
    crate::calendar_laws::new_lines_are_in_order(n);
    assert(block[h] == hashes(plan.level + 1) + seq![' '] + section_name(section));
    assert forall|i: int| 0 <= i < n.len() implies (#[trigger] edits[h + 2 + i]).text == event_line(
        s[i],
    ) by {
        assert(block[h + 2 + i] == event_lines(s)[i]);
    }
    assert forall|i: int| 0 <= i < n.len() implies exists|j: int|
        0 <= j < n.len() && edits[h + 2 + j].text == #[trigger] event_line(n[i]) && s[j]
            == n[i] by {
        lemma_sorted_members::<CalendarEvent>(n, n[i]);
        assert(n.contains(n[i]));
        let j = choose|j: int| 0 <= j < s.len() && s[j] == n[i];
        assert(edits[h + 2 + j].text == event_line(n[i]));
    }
    assert forall|i: int, j: int| 0 <= i < j < n.len() implies event_minute(#[trigger] s[i])
        <= event_minute(#[trigger] s[j]) by {
        assert(!crate::calendar::event_before(s[j], s[i]));
    }
    assert(lists(edits, h, plan, section, n));
}

/// Whether edits write a section's heading, a blank line and the line of each
/// event behind it, by start.
pub open spec fn lists(
    edits: Seq<Edit>,
    h: int,
    plan: Section,
    section: Seq<char>,
    n: Seq<Event>,
) -> bool {
    &&& h + 2 + n.len() <= edits.len()
    &&& edits[h].text == hashes(plan.level + 1) + seq![' '] + section_name(section)
    &&& edits[h + 1].text.len() == 0
    &&& exists|s: Seq<Event>|
        {
            &&& #[trigger] s.len() == n.len()
            &&& s.to_multiset() == n.to_multiset()
            &&& forall|i: int|
                0 <= i < n.len() ==> (#[trigger] edits[h + 2 + i]).text == event_line(s[i])
            &&& forall|i: int, j: int|
                0 <= i < j < n.len() ==> event_minute(#[trigger] s[i]) <= event_minute(
                    #[trigger] s[j],
                )
        }
}

/// Only lines whose title was rewritten are reported, each with its event's id and
/// title, and the line as it stands.
#[verifier::spinoff_prover]
#[verifier::rlimit(40)]
pub proof fn only_renamed_lines_are_reported(
    lines: Seq<Seq<char>>,
    from: int,
    to: int,
    n: Seq<Event>,
    i: int,
)
    requires
        0 <= from <= to <= lines.len(),
        0 <= i < renames(lines, from, to, n).len(),
    ensures
        ({
            let d = renames(lines, from, to, n)[i];
            exists|k: int, r: int|
                0 <= k < n.len() && from <= r < to && {
                    let event = #[trigger] n[k];
                    let line = #[trigger] lines[r];
                    &&& d.id == event.id
                    &&& d.title == event.title
                    &&& d.line == line
                    &&& synced(line) is Some
                    &&& (synced(line)->0).id == event.id
                    &&& (synced(line)->0).update(event) is None
                }
        }),
    decreases n.len(),
{
    let rest = n.drop_last();
    let above = renames(lines, from, to, rest);
    let all = renames(lines, from, to, n);
    if i < above.len() {
        only_renamed_lines_are_reported(lines, from, to, rest, i);
        assert(all[i] == above[i]);
        let (k, r) = choose|k: int, r: int|
            0 <= k < rest.len() && from <= r < to && {
                let event = #[trigger] rest[k];
                let line = #[trigger] lines[r];
                &&& above[i].id == event.id
                &&& above[i].title == event.title
                &&& above[i].line == line
                &&& synced(line) is Some
                &&& (synced(line)->0).id == event.id
                &&& (synced(line)->0).update(event) is None
            };
        assert(n[k] == rest[k]);
        assert(lines[r] == above[i].line);
    } else {
        let event = n[n.len() - 1];
        let row = line_row(lines, from, to, event.id);
        lemma_line_row(lines, from, to, event.id);
        assert(carries(event.id)(lines[row]));
        assert(all[i].line == lines[row]);
    }
}

} // verus!
