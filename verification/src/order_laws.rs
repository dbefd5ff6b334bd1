//! What holds of the order of a Calendar section: a new line stands where its
//! event starts, to the minute.

use vstd::prelude::*;
use crate::calendar::{
    child_section, event_before, insert_at, is_blank, normal, past_content, start_of, CalendarEvent,
    Edit, LineEdit,
};
use crate::calendar_laws::{
    lemma_bounds, lemma_cancels, lemma_changes_within, lemma_fresh, lemma_line_row,
    lemma_normal_writable, lemma_one_kind, lemma_past_content, lemma_raw_edits,
    lemma_section_edited, lemma_slot, new_line, new_lines_are_in_order, new_section, raw_edits,
    writable,
};
use crate::day_plan::{first_row, lemma_first_row, planner};
use crate::edit_laws::{mid, within};
use crate::line_laws::{lemma_marker_is_mark, lemma_range_token, mark};
use crate::reconcile::{
    additions, cancels, carries, changes, edited, fresh, inserted, later, line_row, outcome,
    rewritten, section_edits, section_name, slot,
};
use crate::settle::{lemma_event_line, lemma_new_head, lemma_synced_of, tight, valid_event};
use crate::sort::{lemma_sorted_keeps, lemma_sorted_members, sorted};
use crate::synced_line::{
    content, event_line, event_token, range_token, suffix_of, synced, time_token, Event,
};
use crate::text::{is_white, lead, lemma_body, lemma_lead, trim_start};

verus! {

/// The minute of the day that an event starts at; all-day events come before
/// all others.
pub open spec fn event_minute(event: Event) -> int {
    match event.time {
        Some((start, _)) => start as int,
        None => -1,
    }
}

/// The minute of the day that a synced line starts at; lines without a time come
/// before all others.
pub open spec fn line_minute(line: Seq<char>) -> int {
    match (synced(line)->0).start {
        Some(start) => start,
        None => -1,
    }
}

/// Whether the synced lines among some lines stand in the order of their start,
/// to the minute.
pub open spec fn in_order(s: Seq<Seq<char>>) -> bool {
    forall|i: int, j: int|
        0 <= i < j < s.len() && synced(#[trigger] s[i]) is Some && synced(#[trigger] s[j]) is Some
            ==> line_minute(s[i]) <= line_minute(s[j])
}

/// Whether the synced lines of a range stand in the order of their start.
spec fn range_in_order(lines: Seq<Seq<char>>, from: int, to: int) -> bool {
    forall|i: int, j: int|
        from <= i < j < to && synced(#[trigger] lines[i]) is Some && synced(
            #[trigger] lines[j],
        ) is Some ==> line_minute(lines[i]) <= line_minute(lines[j])
}

proof fn lemma_range_in_order(lines: Seq<Seq<char>>, from: int, to: int)
    requires
        0 <= from <= to <= lines.len(),
        in_order(lines.subrange(from, to)),
    ensures
        range_in_order(lines, from, to),
{
    let s = lines.subrange(from, to);
    assert forall|i: int, j: int|
        from <= i < j < to && synced(#[trigger] lines[i]) is Some && synced(
            #[trigger] lines[j],
        ) is Some implies line_minute(lines[i]) <= line_minute(lines[j]) by {
        assert(s[i - from] == lines[i]);
        assert(s[j - from] == lines[j]);
    }
}

/// The line that a timed event gets reads back with the minute that the event
/// starts at.
#[verifier::spinoff_prover]
#[verifier::rlimit(40)]
pub proof fn written_lines_show_their_start(event: Event)
    requires
        valid_event(event),
        tight(event.title),
        event.time is Some || time_token(event.title) is None,
    ensures
        synced(event_line(event)) is Some,
        line_minute(event_line(event)) == event_minute(event),
{
    lemma_event_line(event);
    lemma_marker_is_mark(event.id, event.kind);
    lemma_new_head();
    let head = "- [ ] "@;
    let c = content(event_token(event), event.title);
    let g = if c.len() == 0 {
        Seq::<char>::empty()
    } else {
        seq![' ']
    };
    let w = Seq::<char>::empty();
    let m = mark(event.id, suffix_of(event.kind));
    assert(event_line(event) =~= head + c + g + m + w);
    if let Some((start, end)) = event.time {
        let tok = range_token(start as nat, end as nat);
        let r = if event.title.len() == 0 {
            Seq::<char>::empty()
        } else {
            seq![' '] + event.title
        };
        assert(is_white(' '));
        lemma_range_token(start as nat, end as nat, r);
        assert(c =~= tok + r);
        assert(c[0] == tok[0]);
        assert(event.title.len() > 0 ==> c.last() == event.title.last());
        assert(event.title.len() == 0 ==> c.last() == tok[12]);
    }
    lemma_synced_of(head, c, g, event.id, suffix_of(event.kind), w);
}

/// Where a new line goes, in a section that is in order: behind every synced line
/// that starts no later, in front of every one that starts later.
proof fn lemma_slot_place(lines: Seq<Seq<char>>, from: int, to: int, event: Event, r: int)
    requires
        0 <= from <= r < to <= lines.len(),
        range_in_order(lines, from, to),
        synced(lines[r]) is Some,
    ensures
        r < slot(lines, from, to, event.time) ==> line_minute(lines[r]) <= event_minute(event),
        slot(lines, from, to, event.time) <= r ==> line_minute(lines[r]) > event_minute(event),
{
    let pred = later(start_of(event.time));
    let at = first_row(lines, pred, from, to);
    lemma_first_row(lines, pred, from, to);
    lemma_starts(lines[r]);
    if at < to {
        lemma_starts(lines[at]);
        if r < at {
            assert(!pred(lines[r]));
        } else if r > at {
            assert(line_minute(lines[at]) <= line_minute(lines[r]));
        }
    } else {
        assert(!pred(lines[r]));
        lemma_behind_content(lines, from, to, r);
    }
}

/// A synced line has a start that is no negative number.
proof fn lemma_starts(line: Seq<char>)
    ensures
        synced(line) is Some && (synced(line)->0).start is Some ==> (synced(line)->0).start->0
            >= 0,
{
    if synced(line) is Some {
        let p = synced(line)->0;
        let at = (crate::synced_line::line_marker(line)->0).0;
        let offset = crate::synced_line::text_offset(line)->0;
        crate::synced_line::lemma_time_token_len(line.subrange(offset, at));
    }
}

/// A synced line is no blank line.
proof fn lemma_behind_content(lines: Seq<Seq<char>>, from: int, to: int, r: int)
    requires
        0 <= from <= r < to <= lines.len(),
        synced(lines[r]) is Some,
    ensures
        r < past_content(lines, from, to),
    decreases to - r,
{
    if r == to - 1 {
        crate::synced_line::lemma_synced(lines[r]);
        lemma_synced_not_blank(lines[r]);
    } else if is_blank(lines[to - 1]) {
        lemma_behind_content(lines, from, to - 1, r);
    }
}

proof fn lemma_synced_not_blank(line: Seq<char>)
    requires
        synced(line) is Some,
    ensures
        !is_blank(line),
{
    let p = synced(line)->0;
    crate::settle::lemma_parts(line);
    crate::line_laws::lemma_mark_chars(p.id, p.suffix);
    let m = mark(p.id, p.suffix);
    let k = p.marker.0;
    assert(line.subrange(k, p.marker.1)[0] == line[k]);
    assert(!is_white('<'));
    lemma_lead(line);
    let t = trim_start(line);
    let i = k - lead(line);
    assert(t[i] == line[k]);
    lemma_body(t);
}

/// New lines that go to one row stand there in the order of their events.
proof fn lemma_inserted_in_order(
    lines: Seq<Seq<char>>,
    from: int,
    to: int,
    evs: Seq<Event>,
    row: int,
    minute: int,
)
    requires
        forall|i: int, j: int|
            0 <= i < j < evs.len() ==> event_minute(#[trigger] evs[i]) <= event_minute(
                #[trigger] evs[j],
            ),
        forall|i: int|
            0 <= i < evs.len() ==> line_minute(event_line(#[trigger] evs[i])) == event_minute(
                evs[i],
            ),
        forall|i: int| 0 <= i < evs.len() ==> event_minute(#[trigger] evs[i]) <= minute,
    ensures
        in_order(inserted(additions(lines, from, to, evs), row)),
        forall|k: int|
            0 <= k < inserted(additions(lines, from, to, evs), row).len() ==> line_minute(
                #[trigger] inserted(additions(lines, from, to, evs), row)[k],
            ) <= minute,
    decreases evs.len(),
{
    if evs.len() > 0 {
        let rest = evs.drop_last();
        let a = additions(lines, from, to, evs);
        let b = additions(lines, from, to, rest);
        assert(a.drop_last() =~= b);
        let x = evs.last();
        assert(x == evs[evs.len() - 1]);
        assert(a.last() == insert_at(slot(lines, from, to, x.time), event_line(x)));
        assert forall|i: int| 0 <= i < rest.len() implies event_minute(#[trigger] rest[i])
            <= event_minute(x) by {
            assert(rest[i] == evs[i]);
        }
        lemma_inserted_in_order(lines, from, to, rest, row, event_minute(x));
    }
}

/// The events to write, in the order in which they are written.
proof fn lemma_events_in_order(n: Seq<Event>)
    ensures
        forall|i: int, j: int|
            0 <= i < j < sorted::<CalendarEvent>(n).len() ==> event_minute(
                #[trigger] sorted::<CalendarEvent>(n)[i],
            ) <= event_minute(#[trigger] sorted::<CalendarEvent>(n)[j]),
{
    new_lines_are_in_order(n);
    let s = sorted::<CalendarEvent>(n);
    assert forall|i: int, j: int| 0 <= i < j < s.len() implies event_minute(#[trigger] s[i])
        <= event_minute(#[trigger] s[j]) by {
        assert(!event_before(s[j], s[i]));
    }
}

/// What a new line is for, and between which lines it goes: in a section whose
/// synced lines are in order, every synced line above it starts no later than
/// its event, every one below it later, to the minute.
#[verifier::spinoff_prover]
#[verifier::rlimit(40)]
pub proof fn new_lines_stand_at_their_minute(
    lines: Seq<Seq<char>>,
    from: int,
    to: int,
    n: Seq<Event>,
    edit: Edit,
)
    requires
        0 <= from <= to <= lines.len(),
        in_order(lines.subrange(from, to)),
        section_edits(lines, from, to, n).contains(edit),
        !edit.replaces,
    ensures
        from <= edit.row <= to,
        exists|k: int|
            0 <= k < n.len() && {
                let event = #[trigger] n[k];
                &&& edit.text == event_line(event)
                &&& forall|r: int|
                    from <= r < to && synced(#[trigger] lines[r]) is Some ==> (synced(
                        lines[r],
                    )->0).id != event.id
                &&& forall|r: int|
                    from <= r < edit.row && synced(#[trigger] lines[r]) is Some ==> line_minute(
                        lines[r],
                    ) <= event_minute(event)
                &&& forall|r: int|
                    edit.row <= r < to && synced(#[trigger] lines[r]) is Some ==> line_minute(
                        lines[r],
                    ) > event_minute(event)
            },
{
    lemma_range_in_order(lines, from, to);
    let raw = raw_edits(lines, from, to, n);
    lemma_sorted_members::<LineEdit>(raw, edit);
    let c = changes(lines, from, to, n);
    let k = cancels(lines, from, to, n);
    let f = fresh(lines, from, to, n);
    let fs = sorted::<CalendarEvent>(f);
    let a = additions(lines, from, to, fs);
    lemma_changes_within(lines, from, to, n);
    lemma_cancels(lines, from, to, n, from, Seq::empty());
    let i = choose|i: int| 0 <= i < raw.len() && raw[i] == edit;
    if i < c.len() {
        assert(raw[i] == c[i]);
    } else if i < c.len() + k.len() {
        assert(raw[i] == k[i - c.len()]);
    } else {
        let j = i - c.len() - k.len();
        assert(raw[i] == a[j]);
        let event = fs[j];
        lemma_sorted_members::<CalendarEvent>(f, event);
        assert(fs.contains(event));
        let m = choose|m: int| 0 <= m < f.len() && f[m] == event;
        lemma_fresh(lines, from, to, n);
        assert(n.contains(f[m]));
        let q = choose|q: int| 0 <= q < n.len() && n[q] == event;
        lemma_slot(lines, from, to, event.time);
        lemma_line_row(lines, from, to, event.id);
        assert forall|r: int| from <= r < to && synced(#[trigger] lines[r]) is Some implies (synced(
            lines[r],
        )->0).id != event.id by {
            assert(!carries(event.id)(lines[r]));
        }
        assert forall|r: int|
            from <= r < edit.row && synced(#[trigger] lines[r]) is Some implies line_minute(
            lines[r],
        ) <= event_minute(event) by {
            lemma_slot_place(lines, from, to, event, r);
        }
        assert forall|r: int|
            edit.row <= r < to && synced(#[trigger] lines[r]) is Some implies line_minute(lines[r])
            > event_minute(event) by {
            lemma_slot_place(lines, from, to, event, r);
        }
        assert(edit.text == event_line(n[q]));
    }
}

/// Of two new lines that go to different rows, the one that goes higher starts
/// no later.
proof fn lemma_slots_in_order(lines: Seq<Seq<char>>, from: int, to: int, a: Event, b: Event)
    requires
        0 <= from <= to <= lines.len(),
        range_in_order(lines, from, to),
        slot(lines, from, to, a.time) < slot(lines, from, to, b.time),
    ensures
        event_minute(a) <= event_minute(b),
{
    let pa = later(start_of(a.time));
    let pb = later(start_of(b.time));
    lemma_first_row(lines, pa, from, to);
    lemma_first_row(lines, pb, from, to);
    lemma_slot(lines, from, to, b.time);
    lemma_past_content(lines, from, to);
    let ra = first_row(lines, pa, from, to);
    let rb = first_row(lines, pb, from, to);
    if ra < to {
        lemma_slot_place(lines, from, to, a, ra);
        lemma_slot_place(lines, from, to, b, ra);
    } else if rb < to {
        lemma_behind_content(lines, from, to, rb);
    }
}

/// The lines up to a row, with the new ones in front of it, are in order, and
/// start no later than what follows.
#[verifier::spinoff_prover]
proof fn lemma_in_order_to(lines: Seq<Seq<char>>, from: int, to: int, n: Seq<Event>, k: int)
    requires
        0 <= from <= k <= to <= lines.len(),
        writable(n),
        range_in_order(lines, from, to),
        forall|r: int| from <= r < to ==> #[trigger] new_line(lines, from, to, n, r) == lines[r],
        forall|i: int|
            0 <= i < n.len() ==> line_minute(event_line(#[trigger] n[i])) == event_minute(n[i]),
    ensures
        ({
            let raw = raw_edits(lines, from, to, n);
            let got = mid(lines, raw, from, k) + inserted(raw, k);
            &&& in_order(got)
            &&& forall|j: int, r: int|
                0 <= j < got.len() && k <= r < to && synced(#[trigger] got[j]) is Some && synced(
                    #[trigger] lines[r],
                ) is Some ==> line_minute(got[j]) <= line_minute(lines[r])
            &&& forall|j: int, i: int|
                0 <= j < got.len() && synced(#[trigger] got[j]) is Some && 0 <= i < n.len() && slot(
                    lines,
                    from,
                    to,
                    (#[trigger] n[i]).time,
                ) > k ==> line_minute(got[j]) <= event_minute(n[i])
        }),
    decreases k - from,
{
    let raw = raw_edits(lines, from, to, n);
    let f = fresh(lines, from, to, n);
    let fs = sorted::<CalendarEvent>(f);
    let ins = inserted(raw, k);
    lemma_raw_edits(lines, from, to, n, k);
    lemma_events_in_order(f);
    lemma_fresh(lines, from, to, n);
    assert forall|i: int| 0 <= i < fs.len() implies exists|q: int|
        0 <= q < n.len() && n[q] == #[trigger] fs[i] by {
        lemma_sorted_members::<CalendarEvent>(f, fs[i]);
        assert(fs.contains(fs[i]));
        let m = choose|m: int| 0 <= m < f.len() && f[m] == fs[i];
        assert(n.contains(f[m]));
    }
    lemma_inserted_in_order(lines, from, to, fs, k, 0x1_0000_0000);
    lemma_inserted_slot(lines, from, to, fs, k);
    assert forall|j: int| 0 <= j < ins.len() implies exists|q: int|
        0 <= q < n.len() && event_line(#[trigger] n[q]) == #[trigger] ins[j] && slot(
            lines,
            from,
            to,
            n[q].time,
        ) == k by {
        let i = choose|i: int|
            0 <= i < fs.len() && event_line(#[trigger] fs[i]) == ins[j] && slot(
                lines,
                from,
                to,
                fs[i].time,
            ) == k;
        let q = choose|q: int| 0 <= q < n.len() && n[q] == fs[i];
        assert(event_line(n[q]) == ins[j]);
    }
    let got = mid(lines, raw, from, k) + ins;
    if from < k {
        lemma_in_order_to(lines, from, to, n, k - 1);
        lemma_raw_edits(lines, from, to, n, k - 1);
        let front = mid(lines, raw, from, k - 1) + inserted(raw, k - 1);
        let line = lines[k - 1];
        assert(new_line(lines, from, to, n, k - 1) == line);
        assert(got =~= front.push(line) + ins);
        assert forall|j: int, r: int|
            0 <= j < got.len() && k <= r < to && synced(#[trigger] got[j]) is Some && synced(
                #[trigger] lines[r],
            ) is Some implies line_minute(got[j]) <= line_minute(lines[r]) by {
            if j < front.len() {
                assert(got[j] == front[j]);
            } else if j > front.len() {
                let q = lemma_its_event(lines, from, to, n, k, j - front.len() - 1);
                lemma_slot_place(lines, from, to, n[q], r);
            }
        }
        assert forall|j: int, i: int|
            0 <= j < got.len() && synced(#[trigger] got[j]) is Some && 0 <= i < n.len() && slot(
                lines,
                from,
                to,
                (#[trigger] n[i]).time,
            ) > k implies line_minute(got[j]) <= event_minute(n[i]) by {
            if j < front.len() {
                assert(got[j] == front[j]);
            } else if j == front.len() {
                lemma_slot_place(lines, from, to, n[i], k - 1);
            } else {
                let q = lemma_its_event(lines, from, to, n, k, j - front.len() - 1);
                lemma_slots_in_order(lines, from, to, n[q], n[i]);
            }
        }
        assert forall|i: int, j: int|
            0 <= i < j < got.len() && synced(#[trigger] got[i]) is Some && synced(
                #[trigger] got[j],
            ) is Some implies line_minute(got[i]) <= line_minute(got[j]) by {
            if j < front.len() {
                assert(got[i] == front[i] && got[j] == front[j]);
            } else if j == front.len() {
                assert(got[i] == front[i]);
                assert(got[j] == lines[k - 1]);
            } else {
                let q = lemma_its_event(lines, from, to, n, k, j - front.len() - 1);
                if i < front.len() {
                    assert(got[i] == front[i]);
                    assert(slot(lines, from, to, n[q].time) > k - 1);
                } else if i == front.len() {
                    lemma_slot_place(lines, from, to, n[q], k - 1);
                } else {
                    assert(got[i] == ins[i - front.len() - 1]);
                    assert(got[j] == ins[j - front.len() - 1]);
                }
            }
        }
    } else {
        assert(got =~= ins);
        assert forall|j: int, r: int|
            0 <= j < got.len() && k <= r < to && synced(#[trigger] got[j]) is Some && synced(
                #[trigger] lines[r],
            ) is Some implies line_minute(got[j]) <= line_minute(lines[r]) by {
            let q = lemma_its_event(lines, from, to, n, k, j);
            lemma_slot_place(lines, from, to, n[q], r);
        }
        assert forall|j: int, i: int|
            0 <= j < got.len() && synced(#[trigger] got[j]) is Some && 0 <= i < n.len() && slot(
                lines,
                from,
                to,
                (#[trigger] n[i]).time,
            ) > k implies line_minute(got[j]) <= event_minute(n[i]) by {
            let q = lemma_its_event(lines, from, to, n, k, j);
            lemma_slots_in_order(lines, from, to, n[q], n[i]);
        }
    }
}

/// The event of a new line.
proof fn lemma_its_event(
    lines: Seq<Seq<char>>,
    from: int,
    to: int,
    n: Seq<Event>,
    k: int,
    j: int,
) -> (q: int)
    requires
        0 <= from <= k <= to <= lines.len(),
        writable(n),
        0 <= j < inserted(raw_edits(lines, from, to, n), k).len(),
    ensures
        0 <= q < n.len(),
        event_line(n[q]) == inserted(raw_edits(lines, from, to, n), k)[j],
        slot(lines, from, to, n[q].time) == k,
        line_row(lines, from, to, n[q].id) == to,
{
    let f = fresh(lines, from, to, n);
    let fs = sorted::<CalendarEvent>(f);
    let ins = inserted(raw_edits(lines, from, to, n), k);
    lemma_raw_edits(lines, from, to, n, k);
    lemma_fresh(lines, from, to, n);
    lemma_inserted_slot(lines, from, to, fs, k);
    let i = choose|i: int|
        0 <= i < fs.len() && event_line(#[trigger] fs[i]) == ins[j] && slot(
            lines,
            from,
            to,
            fs[i].time,
        ) == k;
    lemma_sorted_members::<CalendarEvent>(f, fs[i]);
    assert(fs.contains(fs[i]));
    let m = choose|m: int| 0 <= m < f.len() && f[m] == fs[i];
    assert(n.contains(f[m]));
    choose|q: int| 0 <= q < n.len() && n[q] == fs[i]
}

/// What goes to a row is the line of an event whose slot it is.
proof fn lemma_inserted_slot(
    lines: Seq<Seq<char>>,
    from: int,
    to: int,
    evs: Seq<Event>,
    row: int,
)
    ensures
        forall|k: int|
            0 <= k < inserted(additions(lines, from, to, evs), row).len() ==> exists|j: int|
                0 <= j < evs.len() && event_line(#[trigger] evs[j]) == #[trigger] inserted(
                    additions(lines, from, to, evs),
                    row,
                )[k] && slot(lines, from, to, evs[j].time) == row,
    decreases evs.len(),
{
    if evs.len() > 0 {
        let rest = evs.drop_last();
        lemma_inserted_slot(lines, from, to, rest, row);
        let a = additions(lines, from, to, evs);
        let b = additions(lines, from, to, rest);
        assert(a.drop_last() =~= b);
        let x = evs.last();
        assert(a.last() == insert_at(slot(lines, from, to, x.time), event_line(x)));
        let got = inserted(a, row);
        let was = inserted(b, row);
        assert forall|k: int| 0 <= k < got.len() implies exists|j: int|
            0 <= j < evs.len() && event_line(#[trigger] evs[j]) == #[trigger] got[k] && slot(
                lines,
                from,
                to,
                evs[j].time,
            ) == row by {
            if k < was.len() {
                assert(got[k] == was[k]);
                let j = choose|j: int|
                    0 <= j < rest.len() && event_line(#[trigger] rest[j]) == was[k] && slot(
                        lines,
                        from,
                        to,
                        rest[j].time,
                    ) == row;
                assert(evs[j] == rest[j]);
            } else {
                assert(event_line(evs[evs.len() - 1]) == got[k]);
            }
        }
    }
}

/// Where the synced lines of a section are in order, and none of them has to be
/// rewritten, they are in order once the edits are applied, new ones and old
/// ones together. An all-day event whose title begins with a time is set aside:
/// its line reads as one with that time.
#[verifier::spinoff_prover]
#[verifier::rlimit(40)]
pub proof fn a_section_in_order_stays_in_order(
    lines: Seq<Seq<char>>,
    events: Seq<Event>,
    section: Seq<char>,
    planner_heading: Seq<char>,
    from: int,
    to: int,
)
    requires
        forall|i: int| 0 <= i < events.len() ==> valid_event(#[trigger] events[i]),
        planner(lines, planner_heading) is Some,
        child_section(lines, planner(lines, planner_heading)->0, section_name(section)) == Some(
            (from, to),
        ),
        in_order(lines.subrange(from, to)),
        forall|i: int|
            0 <= i < normal(events).len() ==> (#[trigger] normal(events)[i]).time is Some
                || time_token(normal(events)[i].title) is None,
        forall|edit: Edit|
            (outcome(lines, events, section, planner_heading)->0).edits.contains(edit)
                ==> !edit.replaces,
    ensures
        ({
            let edits = (outcome(lines, events, section, planner_heading)->0).edits;
            let got = edited(lines, edits);
            &&& got.len() == lines.len() + edits.len()
            &&& in_order(got.subrange(from, to + edits.len()))
        }),
{
    let n = normal(events);
    let edits = section_edits(lines, from, to, n);
    let raw = raw_edits(lines, from, to, n);
    lemma_normal_writable(events);
    lemma_bounds(lines, planner_heading, section_name(section));
    lemma_range_in_order(lines, from, to);
    lemma_section_edited(lines, from, to, n);
    assert forall|i: int| 0 <= i < raw.len() implies !(#[trigger] raw[i]).replaces by {
        lemma_sorted_members::<LineEdit>(raw, raw[i]);
        assert(raw.contains(raw[i]));
        assert(edits.contains(raw[i]));
        assert((outcome(lines, events, section, planner_heading)->0).edits == edits);
    }
    assert forall|r: int| from <= r < to implies #[trigger] new_line(lines, from, to, n, r)
        == lines[r] by {
        lemma_raw_edits(lines, from, to, n, r);
        lemma_one_kind(raw, r, lines[r]);
    }
    assert forall|i: int| 0 <= i < n.len() implies line_minute(event_line(#[trigger] n[i]))
        == event_minute(n[i]) by {
        assert(valid_event(n[i]));
        written_lines_show_their_start(n[i]);
    }
    lemma_in_order_to(lines, from, to, n, to);
    let new = new_section(lines, from, to, n);
    let got = edited(lines, edits);
    lemma_lengths(lines, raw, from, to);
    lemma_raw_edits(lines, from, to, n, from);
    lemma_all_between(raw, from, to);
    lemma_sorted_keeps::<LineEdit>(raw);
    assert(got.subrange(from, to + edits.len()) =~= new);
}

/// How many of the edits put a line in front of a row of a range.
spec fn count_to(s: Seq<Edit>, from: int, to: int) -> int
    decreases to - from + 1,
{
    if to < from {
        0
    } else {
        count_to(s, from, to - 1) + inserted(s, to).len()
    }
}

proof fn lemma_lengths(lines: Seq<Seq<char>>, s: Seq<Edit>, from: int, k: int)
    requires
        from <= k,
    ensures
        (mid(lines, s, from, k) + inserted(s, k)).len() == k - from + count_to(s, from, k),
    decreases k - from,
{
    if from < k {
        lemma_lengths(lines, s, from, k - 1);
    } else {
        assert(count_to(s, from, k - 1) == 0);
    }
}

/// Where edits only put lines into a range, as many lines are put as there are
/// edits.
proof fn lemma_all_between(s: Seq<Edit>, from: int, to: int)
    requires
        from <= to,
        within(s, from, to),
        forall|i: int| 0 <= i < s.len() ==> !(#[trigger] s[i]).replaces,
    ensures
        count_to(s, from, to) == s.len(),
    decreases s.len(),
{
    if s.len() == 0 {
        lemma_count_none(s, from, to);
    } else {
        let rest = s.drop_last();
        assert forall|i: int| 0 <= i < rest.len() implies from <= (#[trigger] rest[i]).row <= to
            && !rest[i].replaces by {
            assert(rest[i] == s[i]);
        }
        lemma_all_between(rest, from, to);
        assert(s[s.len() - 1] == s.last());
        lemma_count_one(s, from, to);
    }
}

proof fn lemma_count_none(s: Seq<Edit>, from: int, to: int)
    requires
        s.len() == 0,
    ensures
        count_to(s, from, to) == 0,
    decreases to - from + 1,
{
    if from <= to {
        lemma_count_none(s, from, to - 1);
    }
}

proof fn lemma_count_one(s: Seq<Edit>, from: int, to: int)
    requires
        s.len() > 0,
        !s.last().replaces,
    ensures
        count_to(s, from, to) == count_to(s.drop_last(), from, to) + (if from <= s.last().row
            <= to {
            1int
        } else {
            0
        }),
    decreases to - from + 1,
{
    if from <= to {
        lemma_count_one(s, from, to - 1);
    }
}

} // verus!
