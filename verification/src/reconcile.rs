//! The reconciler: the edits that bring a note's Calendar section in step with
//! the day's events, and their application.

use vstd::prelude::*;
use crate::calendar::{
    after_last_content_row, child_section, contains_id, find_child_section, has_id, insert_at,
    insert_edit, inserts_at, normal, normalized, past_content, replace_at, replace_edit,
    section_block, section_creation_edits, sort_start, start_of, CalendarConfig, Diverged,
    Divergence, Edit, LineEdit, LineEditKind, Reconciled,
};
use crate::day_plan::{first_row, planner, planner_section};
use crate::clean::{on_one_line, one_line};
use crate::lines::{char_position, join, joined, lines, slice_to_chars, split_lines, texts};
use crate::sort::{sort, sorted, views};
use crate::synced_line::{
    cancelled, event_line, render_synced_line, synced, CalendarEvent, Event, SyncedLine,
};
use crate::text::{from_chars, same, to_chars};

verus! {

/// Synced lines with the given id.
pub open spec fn carries(id: Seq<char>) -> spec_fn(Seq<char>) -> bool {
    |line: Seq<char>| synced(line) is Some && (synced(line)->0).id == id
}

/// The first row of `from..to` that carries the id; `to` where none does.
pub open spec fn line_row(lines: Seq<Seq<char>>, from: int, to: int, id: Seq<char>) -> int {
    first_row(lines, carries(id), from, to)
}

/// The rewrites of lines whose event moved, changed its kind or came back.
pub open spec fn changes(
    lines: Seq<Seq<char>>,
    from: int,
    to: int,
    events: Seq<Event>,
) -> Seq<Edit>
    decreases events.len(),
{
    if events.len() == 0 {
        Seq::empty()
    } else {
        let rest = changes(lines, from, to, events.drop_last());
        let row = line_row(lines, from, to, events.last().id);
        if row < to {
            match (synced(lines[row])->0).update(events.last()) {
                Some(text) => if text != lines[row] {
                    rest.push(replace_at(row, text))
                } else {
                    rest
                },
                None => rest,
            }
        } else {
            rest
        }
    }
}

/// The lines whose title was rewritten, with what their event is called.
pub open spec fn renames(
    lines: Seq<Seq<char>>,
    from: int,
    to: int,
    events: Seq<Event>,
) -> Seq<Diverged>
    decreases events.len(),
{
    if events.len() == 0 {
        Seq::empty()
    } else {
        let rest = renames(lines, from, to, events.drop_last());
        let event = events.last();
        let row = line_row(lines, from, to, event.id);
        if row < to && (synced(lines[row])->0).update(event) is None {
            rest.push(Diverged { id: event.id, line: lines[row], title: event.title })
        } else {
            rest
        }
    }
}

/// The events that have no line yet.
pub open spec fn fresh(
    lines: Seq<Seq<char>>,
    from: int,
    to: int,
    events: Seq<Event>,
) -> Seq<Event>
    decreases events.len(),
{
    if events.len() == 0 {
        Seq::empty()
    } else {
        let rest = fresh(lines, from, to, events.drop_last());
        if line_row(lines, from, to, events.last().id) < to {
            rest
        } else {
            rest.push(events.last())
        }
    }
}

/// The marks on lines whose event is gone: a mark, never a delete.
pub open spec fn cancels(
    lines: Seq<Seq<char>>,
    from: int,
    to: int,
    events: Seq<Event>,
) -> Seq<Edit>
    decreases to - from,
{
    if to <= from {
        Seq::empty()
    } else {
        let rest = cancels(lines, from, to - 1, events);
        match synced(lines[to - 1]) {
            Some(p) => if !has_id(events, p.id) && cancelled(p.words()) is None {
                rest.push(replace_at(to - 1, p.cancelled_line()))
            } else {
                rest
            },
            None => rest,
        }
    }
}

/// Synced lines that start later than the given minute.
pub open spec fn later(start: Option<u32>) -> spec_fn(Seq<char>) -> bool {
    |line: Seq<char>|
        synced(line) is Some && match ((synced(line)->0).start, start) {
            (Some(own_start), Some(other)) => own_start > other,
            (Some(_), None) => true,
            _ => false,
        }
}

/// The row that a new event's line goes before: the first synced line that
/// starts later, else past the section's content.
pub open spec fn slot(
    lines: Seq<Seq<char>>,
    from: int,
    to: int,
    time: Option<(u32, u32)>,
) -> int {
    let row = first_row(lines, later(start_of(time)), from, to);
    if row < to {
        row
    } else {
        past_content(lines, from, to)
    }
}

/// The lines of new events.
pub open spec fn additions(
    lines: Seq<Seq<char>>,
    from: int,
    to: int,
    events: Seq<Event>,
) -> Seq<Edit> {
    events.map_values(|e: Event| insert_at(slot(lines, from, to, e.time), event_line(e)))
}

/// The edits inside the section, ordered by row: sorting applies to new lines
/// only, existing ones are never reordered.
pub open spec fn section_edits(
    lines: Seq<Seq<char>>,
    from: int,
    to: int,
    events: Seq<Event>,
) -> Seq<Edit> {
    sorted::<LineEdit>(
        changes(lines, from, to, events) + cancels(lines, from, to, events) + additions(
            lines,
            from,
            to,
            sorted::<CalendarEvent>(fresh(lines, from, to, events)),
        ),
    )
}

/// The edits and the renamed lines of a note with a planner section.
pub struct Outcome {
    pub edits: Seq<Edit>,
    pub diverged: Seq<Diverged>,
}

/// The section's name as its heading has it: on one line.
pub open spec fn section_name(section: Seq<char>) -> Seq<char> {
    if section.contains('\n') {
        one_line(section)
    } else {
        section
    }
}

/// The section's name as its heading has it.
fn heading_name(section: &str) -> (name: Vec<char>)
    ensures
        name@ == section_name(section@),
{
    let chars = to_chars(section);
    proof {
        crate::lines::lemma_next_char(chars@, '\n', 0);
    }
    if char_position(chars.as_slice(), '\n', 0) < chars.len() {
        assert(chars@.contains('\n'));
        on_one_line(chars.as_slice())
    } else {
        assert(!chars@.contains('\n'));
        chars
    }
}

/// What reconciling a note's lines gives; `None` where the planner heading is
/// absent. The section is created only for at least one event, and only where
/// the planner heading can have a child heading.
pub open spec fn outcome(
    lines: Seq<Seq<char>>,
    events: Seq<Event>,
    section: Seq<char>,
    planner_heading: Seq<char>,
) -> Option<Outcome> {
    match planner(lines, planner_heading) {
        Some(plan) => {
            let wanted = normal(events);
            let name = section_name(section);
            match child_section(lines, plan, name) {
                Some((from, to)) => Some(
                    Outcome {
                        edits: section_edits(lines, from, to, wanted),
                        diverged: renames(lines, from, to, wanted),
                    },
                ),
                None => Some(
                    Outcome {
                        edits: if wanted.len() > 0 && plan.level < 6 {
                            inserts_at(plan.end, section_block(lines, plan, name, wanted))
                        } else {
                            Seq::empty()
                        },
                        diverged: Seq::empty(),
                    },
                ),
            }
        },
        None => None,
    }
}

/// Whether `parsed` holds the lines of `from..to` taken apart.
pub open spec fn is_parsed(
    parsed: Seq<Option<SyncedLine>>,
    view: Seq<Seq<char>>,
    from: int,
    to: int,
) -> bool {
    &&& from <= to <= view.len()
    &&& parsed.len() == to - from
    &&& forall|i: int|
        0 <= i < to - from ==> match #[trigger] parsed[i] {
            Some(s) => s.row == from + i && s.line@ == view[from + i] && s.wf(),
            None => synced(view[from + i]) is None,
        }
}

/// The lines of a range, taken apart.
fn parse_rows(lines: &Vec<Vec<char>>, from: usize, to: usize) -> (parsed: Vec<
    Option<SyncedLine>,
>)
    requires
        from <= to <= lines@.len(),
    ensures
        is_parsed(parsed@, texts(lines@), from as int, to as int),
{
    let mut parsed: Vec<Option<SyncedLine>> = Vec::new();
    let mut row: usize = from;
    while row < to
        invariant
            from <= row <= to <= lines@.len(),
            is_parsed(parsed@, texts(lines@), from as int, row as int),
        decreases to - row,
    {
        let ghost before = parsed@;
        parsed.push(SyncedLine::parse_chars(row, lines[row].as_slice()));
        row = row + 1;
        assert forall|i: int| 0 <= i < row - from implies match #[trigger] parsed@[i] {
            Some(s) => s.row == from + i && s.line@ == texts(lines@)[from + i] && s.wf(),
            None => synced(texts(lines@)[from + i]) is None,
        } by {
            if i < before.len() {
                assert(parsed@[i] == before[i]);
            }
        }
    }
    parsed
}

/// The first of the parsed lines with the id; their number where there is none.
fn find_line(parsed: &Vec<Option<SyncedLine>>, id: &str, Ghost(view): Ghost<Seq<Seq<char>>>, Ghost(
    from,
): Ghost<int>) -> (at: usize)
    requires
        is_parsed(parsed@, view, from, from + parsed@.len()),
    ensures
        from + at == line_row(view, from, from + parsed@.len(), id@),
        at <= parsed@.len(),
        at < parsed@.len() ==> parsed@[at as int] is Some && (parsed@[at as int]->0).id@ == id@,
{
    let wanted = to_chars(id);
    let ghost to = from + parsed@.len();
    let mut i: usize = 0;
    while i < parsed.len()
        invariant
            i <= parsed@.len(),
            wanted@ == id@,
            to == from + parsed@.len(),
            is_parsed(parsed@, view, from, to),
            line_row(view, from, to, id@) == first_row(view, carries(id@), from + i, to),
        decreases parsed@.len() - i,
    {
        if let Some(line) = &parsed[i] {
            if same(to_chars(line.id.as_str()).as_slice(), wanted.as_slice()) {
                return i;
            }
        }
        i = i + 1;
    }
    i
}

/// The first of the parsed lines that starts later; their number where there
/// is none.
fn find_later(parsed: &Vec<Option<SyncedLine>>, start: Option<u32>, Ghost(view): Ghost<
    Seq<Seq<char>>,
>, Ghost(from): Ghost<int>) -> (at: usize)
    requires
        is_parsed(parsed@, view, from, from + parsed@.len()),
    ensures
        from + at == first_row(view, later(start), from, from + parsed@.len()),
        at <= parsed@.len(),
{
    let ghost to = from + parsed@.len();
    let mut i: usize = 0;
    while i < parsed.len()
        invariant
            i <= parsed@.len(),
            to == from + parsed@.len(),
            is_parsed(parsed@, view, from, to),
            first_row(view, later(start), from, to) == first_row(view, later(start), from + i, to),
        decreases parsed@.len() - i,
    {
        if let Some(line) = &parsed[i] {
            let is_later: bool = match (line.sort_start, start) {
                (Some(own_start), Some(other)) => own_start > other,
                (Some(_), None) => true,
                _ => false,
            };
            if is_later {
                return i;
            }
        }
        i = i + 1;
    }
    i
}

/// A copy of an event.
pub fn copy_event(event: &CalendarEvent) -> (copy: CalendarEvent)
    ensures
        copy@ == event@,
{
    CalendarEvent {
        id: event.id.clone(),
        title: event.title.clone(),
        time: event.time,
        kind: event.kind,
    }
}

/// Computes the minimal ordered edit list that brings the note's Calendar
/// section in line with `events`. Inserts new meetings at their sorted
/// position, corrects times on moved ones, marks cancelled ones, and never
/// touches a line whose title was rewritten.
pub fn reconcile(note: &str, events: &[CalendarEvent], config: &CalendarConfig) -> (result:
    Reconciled)
    ensures
        match result {
            Reconciled::NoPlannerSection => outcome(
                lines(note@),
                views(events@),
                config.section@,
                config.planner_heading@,
            ) is None,
            Reconciled::Edits { edits, diverged } => outcome(
                lines(note@),
                views(events@),
                config.section@,
                config.planner_heading@,
            ) == Some(Outcome { edits: views(edits@), diverged: views(diverged@) }),
        },
{
    let rows = split_lines(to_chars(note).as_slice());
    let ghost view = lines(note@);
    let heading = to_chars(config.planner_heading.as_str());
    let (range, level): ((usize, usize), usize) = match planner_section(&rows, heading.as_slice()) {
        Some(found) => found,
        None => {
            return Reconciled::NoPlannerSection;
        },
    };
    // Two calendars can carry the same derived id; the first occurrence wins.
    let wanted = normalized(events);
    let ghost n = views(wanted@);
    let section = heading_name(config.section.as_str());
    let (from, to): (usize, usize) = match find_child_section(
        &rows,
        range,
        level,
        section.as_slice(),
    ) {
        Some(found) => found,
        None => {
            let diverged: Vec<Divergence> = Vec::new();
            assert(views(diverged@) =~= Seq::<Diverged>::empty());
            if wanted.len() > 0 && level < 6 {
                let edits = section_creation_edits(&rows, range, level, section.as_slice(), wanted);
                return Reconciled::Edits { edits, diverged };
            }
            let edits: Vec<LineEdit> = Vec::new();
            assert(views(edits@) =~= Seq::<Edit>::empty());
            return Reconciled::Edits { edits, diverged };
        },
    };
    let parsed = parse_rows(&rows, from, to);
    let mut edits: Vec<LineEdit> = Vec::new();
    let mut diverged: Vec<Divergence> = Vec::new();
    let mut inserts: Vec<CalendarEvent> = Vec::new();
    let mut i: usize = 0;
    proof {
        assert(n.take(0) =~= Seq::<Event>::empty());
        assert(views(edits@) =~= Seq::<Edit>::empty());
        assert(views(diverged@) =~= Seq::<Diverged>::empty());
        assert(views(inserts@) =~= Seq::<Event>::empty());
    }
    while i < wanted.len()
        invariant
            i <= wanted@.len(),
            n == views(wanted@),
            from <= to <= view.len(),
            is_parsed(parsed@, view, from as int, to as int),
            views(edits@) == changes(view, from as int, to as int, n.take(i as int)),
            views(diverged@) == renames(view, from as int, to as int, n.take(i as int)),
            views(inserts@) == fresh(view, from as int, to as int, n.take(i as int)),
        decreases wanted@.len() - i,
    {
        let event = &wanted[i];
        let ghost e0 = edits@;
        let ghost d0 = diverged@;
        let ghost i0 = inserts@;
        proof {
            assert(n.take(i + 1).drop_last() =~= n.take(i as int));
            assert(n.take(i + 1).last() == event@);
        }
        let at: usize = find_line(&parsed, event.id.as_str(), Ghost(view), Ghost(from as int));
        if at == parsed.len() {
            inserts.push(copy_event(event));
            assert(views(inserts@) =~= views(i0).push(event@));
        } else if let Some(line) = &parsed[at] {
            match line.updated_for(event) {
                Some(replacement) => {
                    if !same(replacement.as_slice(), line.line.as_slice()) {
                        edits.push(replace_edit(line.row, replacement.as_slice()));
                        assert(views(edits@) =~= views(e0).push(
                            replace_at(from + at, replacement@),
                        ));
                    }
                },
                None => {
                    let d = Divergence {
                        id: event.id.clone(),
                        line: from_chars(line.line.as_slice()),
                        event_title: event.title.clone(),
                    };
                    diverged.push(d);
                    assert(views(diverged@) =~= views(d0).push(d@));
                },
            }
        }
        i = i + 1;
    }
    assert(n.take(n.len() as int) =~= n);
    let ghost done = changes(view, from as int, to as int, n);
    // An id in the note but absent from the events is a cancellation.
    let mut k: usize = 0;
    assert(done + cancels(view, from as int, from as int, n) =~= done);
    while k < parsed.len()
        invariant
            k <= parsed@.len(),
            n == views(wanted@),
            from <= to <= view.len(),
            is_parsed(parsed@, view, from as int, to as int),
            views(edits@) == done + cancels(view, from as int, from + k, n),
        decreases parsed@.len() - k,
    {
        let ghost e0 = edits@;
        if let Some(line) = &parsed[k] {
            if !contains_id(&wanted, line.id.as_str()) && !line.is_cancelled() {
                let text = line.cancelled_form();
                edits.push(replace_edit(line.row, text.as_slice()));
                assert(views(edits@) =~= views(e0).push(replace_at(from + k, text@)));
            }
        }
        k = k + 1;
        assert(views(edits@) =~= done + cancels(view, from as int, from + k, n));
    }
    let ghost base = done + cancels(view, from as int, to as int, n);
    // Sorting applies to inserts only. Past the last synced line means past the
    // whole section content: sub-bullets may be nested under that line.
    let ordered = sort(inserts);
    let ghost added = additions(view, from as int, to as int, views(ordered@));
    let fallback: usize = after_last_content_row(&rows, from, to);
    let mut m: usize = 0;
    assert(base + added.take(0) =~= base);
    while m < ordered.len()
        invariant
            m <= ordered@.len(),
            from <= to <= view.len(),
            is_parsed(parsed@, view, from as int, to as int),
            fallback == past_content(view, from as int, to as int),
            added == additions(view, from as int, to as int, views(ordered@)),
            views(edits@) == base + added.take(m as int),
        decreases ordered@.len() - m,
    {
        let ghost e0 = edits@;
        let event = &ordered[m];
        let at: usize = find_later(
            &parsed,
            sort_start(event.time),
            Ghost(view),
            Ghost(from as int),
        );
        let row: usize = if at < parsed.len() {
            from + at
        } else {
            fallback
        };
        let line = render_synced_line(event);
        edits.push(insert_edit(row, line.as_slice()));
        assert(added[m as int] == insert_at(row as int, line@));
        assert(views(edits@) =~= views(e0).push(insert_at(row as int, line@)));
        assert(base + added.take(m + 1) =~= (base + added.take(m as int)).push(added[m as int]));
        m = m + 1;
    }
    assert(added.take(added.len() as int) =~= added);
    Reconciled::Edits { edits: sort(edits), diverged }
}

/// The lines that the edits put before a row, in list order.
pub open spec fn inserted(edits: Seq<Edit>, row: int) -> Seq<Seq<char>>
    decreases edits.len(),
{
    if edits.len() == 0 {
        Seq::empty()
    } else {
        let rest = inserted(edits.drop_last(), row);
        if !edits.last().replaces && edits.last().row == row {
            rest.push(edits.last().text)
        } else {
            rest
        }
    }
}

/// What stands in a row after the edits: the text of the last rewrite, else
/// the line itself.
pub open spec fn rewritten(edits: Seq<Edit>, row: int, line: Seq<char>) -> Seq<char>
    decreases edits.len(),
{
    if edits.len() == 0 {
        line
    } else if edits.last().replaces && edits.last().row == row {
        edits.last().text
    } else {
        rewritten(edits.drop_last(), row, line)
    }
}

/// The first `n` rows with the edits applied.
pub open spec fn edited_rows(lines: Seq<Seq<char>>, edits: Seq<Edit>, n: int) -> Seq<Seq<char>>
    decreases n,
{
    if n <= 0 {
        Seq::empty()
    } else {
        (edited_rows(lines, edits, n - 1) + inserted(edits, n - 1)).push(
            rewritten(edits, n - 1, lines[n - 1]),
        )
    }
}

/// The insertions at or past row `n`.
pub open spec fn past(edits: Seq<Edit>, n: int) -> Seq<Edit>
    decreases edits.len(),
{
    if edits.len() == 0 {
        Seq::empty()
    } else {
        let rest = past(edits.drop_last(), n);
        if !edits.last().replaces && edits.last().row >= n {
            rest.push(edits.last())
        } else {
            rest
        }
    }
}

/// The texts of edits.
pub open spec fn edit_texts(edits: Seq<Edit>) -> Seq<Seq<char>> {
    edits.map_values(|e: Edit| e.text)
}

/// The lines of a note with the edits applied; insertions past the last row
/// come at the end, ordered by row.
pub open spec fn edited(lines: Seq<Seq<char>>, edits: Seq<Edit>) -> Seq<Seq<char>> {
    edited_rows(lines, edits, lines.len() as int) + edit_texts(
        sorted::<LineEdit>(past(edits, lines.len() as int)),
    )
}

/// The note with the edits applied: it ends with a line feed where the note
/// did, or where the note was empty and something was written.
pub open spec fn edited_note(note: Seq<char>, edits: Seq<Edit>) -> Seq<char> {
    let text = join(edited(lines(note), edits), seq!['\n']);
    if (note.len() > 0 && note.last() == '\n') || (note.len() == 0 && text.len() > 0) {
        text + seq!['\n']
    } else {
        text
    }
}

/// The text of an edit.
fn edit_text(edit: &LineEdit) -> (text: Vec<char>)
    ensures
        text@ == edit@.text,
{
    match &edit.kind {
        LineEditKind::Insert(text) => to_chars(text.as_str()),
        LineEditKind::Replace(text) => to_chars(text.as_str()),
    }
}

/// Appends the lines that the edits put before a row.
fn append_inserted(out: &mut Vec<Vec<char>>, edits: &[LineEdit], row: usize)
    ensures
        texts(final(out)@) == texts(old(out)@) + inserted(views(edits@), row as int),
{
    let ghost all = views(edits@);
    let ghost before = texts(out@);
    let mut i: usize = 0;
    assert(all.take(0) =~= Seq::<Edit>::empty());
    assert(before + inserted(all.take(0), row as int) =~= before);
    while i < edits.len()
        invariant
            i <= edits@.len(),
            all == views(edits@),
            texts(out@) == before + inserted(all.take(i as int), row as int),
        decreases edits@.len() - i,
    {
        let edit = &edits[i];
        let ghost o0 = out@;
        proof {
            assert(all.take(i + 1).drop_last() =~= all.take(i as int));
            assert(all.take(i + 1).last() == edit@);
        }
        if edit.row == row {
            if let LineEditKind::Insert(text) = &edit.kind {
                out.push(to_chars(text.as_str()));
                assert(texts(out@) =~= texts(o0).push(text@));
            }
        }
        i = i + 1;
        assert(texts(out@) =~= before + inserted(all.take(i as int), row as int));
    }
    assert(all.take(all.len() as int) =~= all);
}

/// What stands in a row after the edits.
fn rewritten_line(edits: &[LineEdit], row: usize, line: &[char]) -> (out: Vec<char>)
    ensures
        out@ == rewritten(views(edits@), row as int, line@),
{
    let ghost all = views(edits@);
    let mut i: usize = edits.len();
    assert(all.take(all.len() as int) =~= all);
    while i > 0
        invariant
            i <= edits@.len(),
            all == views(edits@),
            rewritten(all, row as int, line@) == rewritten(
                all.take(i as int),
                row as int,
                line@,
            ),
        decreases i,
    {
        let edit = &edits[i - 1];
        proof {
            assert(all.take(i as int).drop_last() =~= all.take(i - 1));
            assert(all.take(i as int).last() == edit@);
        }
        if edit.row == row {
            if let LineEditKind::Replace(text) = &edit.kind {
                return to_chars(text.as_str());
            }
        }
        i = i - 1;
    }
    slice_to_chars(line)
}

/// The insertions at or past row `n`.
fn past_edits(edits: &[LineEdit], n: usize) -> (out: Vec<LineEdit>)
    ensures
        views(out@) == past(views(edits@), n as int),
{
    let ghost all = views(edits@);
    let mut out: Vec<LineEdit> = Vec::new();
    let mut i: usize = 0;
    assert(all.take(0) =~= Seq::<Edit>::empty());
    assert(views(out@) =~= Seq::<Edit>::empty());
    while i < edits.len()
        invariant
            i <= edits@.len(),
            all == views(edits@),
            views(out@) == past(all.take(i as int), n as int),
        decreases edits@.len() - i,
    {
        let edit = &edits[i];
        let ghost o0 = out@;
        proof {
            assert(all.take(i + 1).drop_last() =~= all.take(i as int));
            assert(all.take(i + 1).last() == edit@);
        }
        if edit.row >= n {
            if let LineEditKind::Insert(text) = &edit.kind {
                out.push(insert_edit(edit.row, to_chars(text.as_str()).as_slice()));
                assert(views(out@) =~= views(o0).push(edit@));
            }
        }
        i = i + 1;
    }
    assert(all.take(all.len() as int) =~= all);
    out
}

/// Applies an edit list from [`reconcile`] to the note text. Inserts land
/// before their original row; multiple inserts at one row keep list order.
pub fn apply_line_edits(note: &str, edits: &[LineEdit]) -> (text: String)
    ensures
        text@ == edited_note(note@, views(edits@)),
{
    let chars = to_chars(note);
    let rows = split_lines(chars.as_slice());
    let ghost view = lines(note@);
    let ghost all = views(edits@);
    let mut out: Vec<Vec<char>> = Vec::new();
    let mut row: usize = 0;
    assert(texts(out@) =~= edited_rows(view, all, 0));
    while row < rows.len()
        invariant
            row <= rows@.len(),
            texts(rows@) == view,
            all == views(edits@),
            texts(out@) == edited_rows(view, all, row as int),
        decreases rows@.len() - row,
    {
        append_inserted(&mut out, edits, row);
        let ghost o0 = out@;
        let line = rewritten_line(edits, row, rows[row].as_slice());
        assert(view[row as int] == rows@[row as int]@);
        out.push(line);
        assert(texts(out@) =~= texts(o0).push(line@));
        row = row + 1;
    }
    let trailing = sort(past_edits(edits, rows.len()));
    let ghost body = texts(out@);
    let ghost tail = edit_texts(views(trailing@));
    let mut i: usize = 0;
    assert(body + tail.take(0) =~= body);
    while i < trailing.len()
        invariant
            i <= trailing@.len(),
            tail == edit_texts(views(trailing@)),
            texts(out@) == body + tail.take(i as int),
        decreases trailing@.len() - i,
    {
        let ghost o0 = out@;
        let line = edit_text(&trailing[i]);
        assert(tail[i as int] == line@);
        out.push(line);
        assert(texts(out@) =~= texts(o0).push(line@));
        assert(body + tail.take(i + 1) =~= (body + tail.take(i as int)).push(line@));
        i = i + 1;
    }
    assert(tail.take(tail.len() as int) =~= tail);
    let mut sep: Vec<char> = Vec::new();
    sep.push('\n');
    assert(sep@ =~= seq!['\n']);
    let mut text = joined(&out, sep.as_slice());
    let ends: bool = chars.len() > 0 && chars[chars.len() - 1] == '\n';
    if ends || (chars.len() == 0 && text.len() > 0) {
        text.push('\n');
        assert(text@ =~= join(edited(view, all), seq!['\n']) + seq!['\n']);
    }
    from_chars(text.as_slice())
}

} // verus!
