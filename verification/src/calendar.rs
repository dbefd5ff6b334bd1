//! Calendar sync into the daily note: the configuration, marker-id derivation,
//! and the reconciler that maintains the Calendar subsection of the Day
//! Planner. Everything here is pure: text in, text out.

use vstd::prelude::*;
use vstd::utf8::encode_utf8;
use crate::clean::{lacks, on_one_line, one_line, scrub, scrubbed};
use crate::day_plan::{
    at_or_above, first_row, heading_level_and_text, next_heading, titled_at, Section,
};
use crate::digest::{append_bytes, short_digest, short_hex};
use crate::format::{is_text_before, lowercase, lowered, text_before};
use crate::lines::texts;
pub use crate::reconcile::{apply_line_edits, reconcile};
use crate::sort::{sort, sorted, views, Ranked};
pub use crate::synced_line::{
    checkbox_text_offset, format_time_token, leading_time_token, line_event_kind,
    parse_marker_payload, render_marker, render_synced_line, title_trailing, CalendarEvent,
    EventKind, SyncedLine,
};
use crate::synced_line::{event_line, Event};
use crate::text::{from_chars, own, same, to_chars, trim, trimmed};

verus! {

/// The calendar configuration's file name, next to `config.toml` in `.thock/`.
pub const CALENDAR_CONFIG_FILE: &'static str = "calendar.toml";

/// A provider's answer for one day.
#[derive(Debug, Clone, PartialEq)]
pub enum Fetched {
    /// Events overlapping the local day, already normalized and filtered.
    Events(Vec<CalendarEvent>),
    /// The provider proved that nothing moved.
    Unchanged,
}

/// Which fetched events get written into the note.
#[derive(Debug, Clone, Copy, PartialEq, Eq, Structural)]
pub struct EventFilters {
    pub accepted_only: bool,
    pub include_solo: bool,
    pub all_day: bool,
    pub private_busy: bool,
}

impl Default for EventFilters {
    fn default() -> (filters: Self)
        ensures
            filters == (EventFilters {
                accepted_only: true,
                include_solo: true,
                all_day: false,
                private_busy: false,
            }),
    {
        EventFilters {
            accepted_only: true,
            include_solo: true,
            all_day: false,
            private_busy: false,
        }
    }
}

/// Optional override of the bundled desktop OAuth client.
#[derive(Debug, Clone, PartialEq, Eq)]
pub struct GoogleClientOverride {
    pub client_id: Option<String>,
    pub client_secret: Option<String>,
}

impl Default for GoogleClientOverride {
    fn default() -> (none: Self)
        ensures
            none.client_id is None,
            none.client_secret is None,
    {
        GoogleClientOverride { client_id: None, client_secret: None }
    }
}

/// The resolved calendar configuration plus the planner heading it reconciles
/// under.
#[derive(Debug, Clone, PartialEq)]
pub struct CalendarConfig {
    pub account: Option<String>,
    /// Calendar ids to sync; empty means nothing syncs.
    pub calendars: Vec<String>,
    /// Child heading of the planner section that the syncer maintains.
    pub section: String,
    /// In seconds.
    pub poll_interval: u64,
    pub filters: EventFilters,
    pub google: GoogleClientOverride,
    /// The Day Planner's heading, from the vault configuration.
    pub planner_heading: String,
}

impl CalendarConfig {
    /// The configuration that a vault without any settings has.
    pub fn with_planner_heading(planner_heading: &str) -> (config: Self)
        ensures
            config.account is None,
            config.calendars@.len() == 0,
            config.section@ == "Calendar"@,
            config.poll_interval == 300,
            config.filters == (EventFilters {
                accepted_only: true,
                include_solo: true,
                all_day: false,
                private_busy: false,
            }),
            config.google.client_id is None,
            config.google.client_secret is None,
            config.planner_heading@ == planner_heading@,
    {
        CalendarConfig {
            account: None,
            calendars: Vec::new(),
            section: own("Calendar"),
            poll_interval: 300,
            filters: EventFilters::default(),
            google: GoogleClientOverride::default(),
            planner_heading: own(planner_heading),
        }
    }
}

/// The `[filters]` table of the configuration file.
#[derive(Debug)]
pub struct FiltersContent {
    pub accepted_only: Option<bool>,
    pub include_solo: Option<bool>,
    pub all_day: Option<bool>,
    pub private_busy: Option<bool>,
}

/// The configuration file, as read: every field is optional.
#[derive(Debug)]
pub struct CalendarConfigContent {
    pub account: Option<String>,
    pub calendars: Option<Vec<String>>,
    pub section: Option<String>,
    pub poll_seconds: Option<u64>,
    pub filters: FiltersContent,
    pub google: GoogleClientOverride,
}

/// Whether a text has nothing but white space.
pub open spec fn is_blank(s: Seq<char>) -> bool {
    trim(s).len() == 0
}

/// Whether a text has nothing but white space.
pub fn blank(s: &[char]) -> (yes: bool)
    ensures
        yes == is_blank(s@),
{
    trimmed(s).len() == 0
}

/// Whether a string has nothing but white space.
pub fn blank_str(s: &str) -> (yes: bool)
    ensures
        yes == is_blank(s@),
{
    blank(to_chars(s).as_slice())
}

/// The text of an optional string that is more than white space.
pub open spec fn filled(s: Option<String>) -> Option<Seq<char>> {
    match s {
        Some(t) => if is_blank(t@) {
            None
        } else {
            Some(t@)
        },
        None => None,
    }
}

/// The text of an optional string.
pub open spec fn opt_text(s: Option<String>) -> Option<Seq<char>> {
    match s {
        Some(t) => Some(t@),
        None => None,
    }
}

/// A poll interval in seconds: five minutes where none is given, and between
/// one minute and one hour.
pub open spec fn poll_seconds(given: Option<u64>) -> u64 {
    match given {
        Some(n) => if n < 60 {
            60
        } else if n > 3600 {
            3600
        } else {
            n
        },
        None => 300,
    }
}

/// A poll interval in seconds.
pub fn clamp_poll_seconds(given: Option<u64>) -> (seconds: u64)
    ensures
        seconds == poll_seconds(given),
{
    match given {
        Some(n) => if n < 60 {
            60
        } else if n > 3600 {
            3600
        } else {
            n
        },
        None => 300,
    }
}

/// The given setting, or the default.
pub open spec fn setting(given: Option<bool>, default: bool) -> bool {
    match given {
        Some(b) => b,
        None => default,
    }
}

/// An optional string, where it is more than white space.
pub fn keep_filled(s: Option<String>) -> (kept: Option<String>)
    ensures
        opt_text(kept) == filled(s),
{
    match s {
        Some(t) => if blank_str(t.as_str()) {
            None
        } else {
            Some(t)
        },
        None => None,
    }
}

/// Resolves a configuration file: blank names are dropped, the poll interval
/// is clamped, and defaults fill the rest.
pub fn resolve_calendar_config(
    content: CalendarConfigContent,
    planner_heading: &str,
) -> (config: CalendarConfig)
    ensures
        opt_text(config.account) == filled(content.account),
        config.calendars@ == (match content.calendars {
            Some(ids) => ids@,
            None => Seq::empty(),
        }),
        config.section@ == (match filled(content.section) {
            Some(s) => s,
            None => "Calendar"@,
        }),
        config.poll_interval == poll_seconds(content.poll_seconds),
        config.filters.accepted_only == setting(content.filters.accepted_only, true),
        config.filters.include_solo == setting(content.filters.include_solo, true),
        config.filters.all_day == setting(content.filters.all_day, false),
        config.filters.private_busy == setting(content.filters.private_busy, false),
        config.google == content.google,
        config.planner_heading@ == planner_heading@,
{
    let defaults = EventFilters::default();
    let calendars: Vec<String> = match content.calendars {
        Some(ids) => ids,
        None => Vec::new(),
    };
    let section: String = match keep_filled(content.section) {
        Some(s) => s,
        None => own("Calendar"),
    };
    CalendarConfig {
        account: keep_filled(content.account),
        calendars,
        section,
        poll_interval: clamp_poll_seconds(content.poll_seconds),
        filters: EventFilters {
            accepted_only: content.filters.accepted_only.unwrap_or(defaults.accepted_only),
            include_solo: content.filters.include_solo.unwrap_or(defaults.include_solo),
            all_day: content.filters.all_day.unwrap_or(defaults.all_day),
            private_busy: content.filters.private_busy.unwrap_or(defaults.private_busy),
        },
        google: content.google,
        planner_heading: own(planner_heading),
    }
}

/// The id of an event: the first twelve hexadecimal digits of the SHA-256 of
/// the calendar id, a zero byte and the event id.
pub open spec fn event_id(calendar_id: Seq<char>, event_id: Seq<char>) -> Seq<char> {
    short_digest(encode_utf8(calendar_id) + seq![0u8] + encode_utf8(event_id))
}

/// The id that travels in a synced line's marker. A short digest keeps the
/// line readable while staying stable across renames and moves.
pub fn event_marker_id(calendar_id: &str, event_id: &str) -> (id: String)
    ensures
        id@ == self::event_id(calendar_id@, event_id@),
        id@.len() == 12,
        crate::synced_line::all_hex(id@),
{
    let mut bytes: Vec<u8> = Vec::new();
    append_bytes(&mut bytes, calendar_id);
    bytes.push(0);
    append_bytes(&mut bytes, event_id);
    assert(bytes@ =~= encode_utf8(calendar_id@) + seq![0u8] + encode_utf8(event_id@));
    short_hex(bytes.as_slice())
}

/// One edit to the note, in the note's *original* row coordinates. `Insert`
/// places a new line before original row `row` (`row == line count` appends at
/// the end); `Replace` rewrites that row. There is deliberately no delete.
#[derive(Debug, Clone, PartialEq, Eq)]
pub struct LineEdit {
    pub row: usize,
    pub kind: LineEditKind,
}

/// What an edit does to its row.
#[derive(Debug, Clone, PartialEq, Eq)]
pub enum LineEditKind {
    Insert(String),
    Replace(String),
}

/// What an edit says.
pub struct Edit {
    pub row: int,
    /// Whether it rewrites the row; else it puts a line before it.
    pub replaces: bool,
    pub text: Seq<char>,
}

impl View for LineEdit {
    type V = Edit;

    open spec fn view(&self) -> Edit {
        match self.kind {
            LineEditKind::Insert(text) => Edit {
                row: self.row as int,
                replaces: false,
                text: text@,
            },
            LineEditKind::Replace(text) => Edit {
                row: self.row as int,
                replaces: true,
                text: text@,
            },
        }
    }
}

impl Ranked for LineEdit {
    open spec fn before(a: Edit, b: Edit) -> bool {
        a.row < b.row
    }

    fn is_before(&self, other: &Self) -> (yes: bool) {
        self.row < other.row
    }
}

/// A synced line whose title no longer matches its event: it was renamed, the
/// rename wins, and the line is frozen.
#[derive(Debug, Clone, PartialEq, Eq)]
pub struct Divergence {
    pub id: String,
    pub line: String,
    pub event_title: String,
}

/// What a divergence says.
pub struct Diverged {
    pub id: Seq<char>,
    pub line: Seq<char>,
    pub title: Seq<char>,
}

impl View for Divergence {
    type V = Diverged;

    open spec fn view(&self) -> Diverged {
        Diverged { id: self.id@, line: self.line@, title: self.event_title@ }
    }
}

/// What reconciling a note found.
#[derive(Debug, Clone, PartialEq)]
pub enum Reconciled {
    /// The planner heading is absent from the note; sync holds rather than
    /// inventing one.
    NoPlannerSection,
    Edits { edits: Vec<LineEdit>, diverged: Vec<Divergence> },
}

/// Whether `a` is an earlier minute than `b`; no minute is before any.
pub open spec fn minute_before(a: Option<u32>, b: Option<u32>) -> bool {
    match (a, b) {
        (None, Some(_)) => true,
        (Some(m), Some(n)) => m < n,
        _ => false,
    }
}

fn is_minute_before(a: Option<u32>, b: Option<u32>) -> (yes: bool)
    ensures
        yes == minute_before(a, b),
{
    match (a, b) {
        (None, Some(_)) => true,
        (Some(m), Some(n)) => m < n,
        _ => false,
    }
}

/// The start minute; all-day events have none, and sort before timed ones.
pub open spec fn start_of(time: Option<(u32, u32)>) -> Option<u32> {
    match time {
        Some((start, _)) => Some(start),
        None => None,
    }
}

/// The end minute.
pub open spec fn end_of(time: Option<(u32, u32)>) -> Option<u32> {
    match time {
        Some((_, end)) => Some(end),
        None => None,
    }
}

pub(crate) fn sort_start(time: Option<(u32, u32)>) -> (start: Option<u32>)
    ensures
        start == start_of(time),
{
    match time {
        Some((start, _)) => Some(start),
        None => None,
    }
}

/// Whether event `a` comes before event `b`: by start, then end, then title,
/// then id.
pub open spec fn event_before(a: Event, b: Event) -> bool {
    if start_of(a.time) != start_of(b.time) {
        minute_before(start_of(a.time), start_of(b.time))
    } else if end_of(a.time) != end_of(b.time) {
        minute_before(end_of(a.time), end_of(b.time))
    } else if a.title != b.title {
        text_before(a.title, b.title)
    } else {
        text_before(a.id, b.id)
    }
}

impl Ranked for CalendarEvent {
    open spec fn before(a: Event, b: Event) -> bool {
        event_before(a, b)
    }

    fn is_before(&self, other: &Self) -> (yes: bool) {
        let a: Option<u32> = sort_start(self.time);
        let b: Option<u32> = sort_start(other.time);
        if is_minute_before(a, b) {
            return true;
        }
        if is_minute_before(b, a) {
            return false;
        }
        let c: Option<u32> = match self.time {
            Some((_, end)) => Some(end),
            None => None,
        };
        let d: Option<u32> = match other.time {
            Some((_, end)) => Some(end),
            None => None,
        };
        if is_minute_before(c, d) {
            return true;
        }
        if is_minute_before(d, c) {
            return false;
        }
        let s = to_chars(self.title.as_str());
        let t = to_chars(other.title.as_str());
        if !same(s.as_slice(), t.as_slice()) {
            return is_text_before(s.as_slice(), t.as_slice());
        }
        let i = to_chars(self.id.as_str());
        let j = to_chars(other.id.as_str());
        is_text_before(i.as_slice(), j.as_slice())
    }
}

/// A calendar title as it may appear in a note line.
pub open spec fn clean_title(title: Seq<char>) -> Seq<char> {
    one_line(scrubbed(title, "<!--"@))
}

/// The title as it may appear in a note line: the opening of an HTML comment
/// is taken out, so that a hostile calendar entry cannot forge a marker, and
/// the lines are put on one.
pub fn sanitize_title(title: &str) -> (out: String)
    ensures
        out@ == clean_title(title@),
        lacks(out@, "<!--"@),
{
    proof {
        crate::title_laws::calendar_titles_open_no_comment(title@);
        reveal_strlit("<!--");
    }
    let chars = to_chars(title);
    let plain = scrub(chars.as_slice(), to_chars("<!--").as_slice());
    from_chars(on_one_line(plain.as_slice()).as_slice())
}

/// Whether one of the events has the id.
pub open spec fn has_id(events: Seq<Event>, id: Seq<char>) -> bool {
    exists|i: int| 0 <= i < events.len() && #[trigger] events[i].id == id
}

/// The event with its title cleaned.
pub open spec fn cleaned(event: Event) -> Event {
    Event { id: event.id, title: clean_title(event.title), time: event.time, kind: event.kind }
}

/// The events to write: of those that share an id the first one, with clean
/// titles.
pub open spec fn normal(events: Seq<Event>) -> Seq<Event>
    decreases events.len(),
{
    if events.len() == 0 {
        Seq::empty()
    } else if has_id(events.drop_last(), events.last().id) {
        normal(events.drop_last())
    } else {
        normal(events.drop_last()).push(cleaned(events.last()))
    }
}

/// Normalizing keeps the ids.
pub proof fn lemma_normal_ids(events: Seq<Event>, id: Seq<char>)
    ensures
        has_id(normal(events), id) == has_id(events, id),
    decreases events.len(),
{
    if events.len() > 0 {
        let rest = events.drop_last();
        let n = normal(rest);
        lemma_normal_ids(rest, id);
        lemma_normal_ids(rest, events.last().id);
        if has_id(rest, id) {
            let i = choose|i: int| 0 <= i < rest.len() && #[trigger] rest[i].id == id;
            assert(events[i].id == id);
            let k = choose|k: int| 0 <= k < n.len() && #[trigger] n[k].id == id;
            assert(normal(events)[k].id == id);
        }
        if has_id(events, id) && !has_id(rest, id) {
            let i = choose|i: int| 0 <= i < events.len() && #[trigger] events[i].id == id;
            if i < rest.len() {
                assert(rest[i].id == id);
            }
            assert(id == events.last().id);
            assert(normal(events)[n.len() as int].id == id);
        }
        if has_id(normal(events), id) && !has_id(rest, id) {
            let k = choose|k: int|
                0 <= k < normal(events).len() && #[trigger] normal(events)[k].id == id;
            if k < n.len() {
                assert(n[k].id == id);
            }
            assert(events[events.len() - 1].id == id);
        }
    }
}

/// Whether one of the events has the id.
pub(crate) fn contains_id(events: &Vec<CalendarEvent>, id: &str) -> (yes: bool)
    ensures
        yes == has_id(views(events@), id@),
{
    let wanted = to_chars(id);
    let mut i: usize = 0;
    while i < events.len()
        invariant
            i <= events@.len(),
            wanted@ == id@,
            forall|j: int| 0 <= j < i ==> #[trigger] views(events@)[j].id != id@,
        decreases events@.len() - i,
    {
        assert(views(events@)[i as int].id == events@[i as int].id@);
        if same(to_chars(events[i].id.as_str()).as_slice(), wanted.as_slice()) {
            return true;
        }
        i = i + 1;
    }
    false
}

/// The events to write.
pub(crate) fn normalized(events: &[CalendarEvent]) -> (out: Vec<CalendarEvent>)
    ensures
        views(out@) == normal(views(events@)),
{
    let mut out: Vec<CalendarEvent> = Vec::new();
    let ghost all = views(events@);
    let mut i: usize = 0;
    assert(all.take(0) =~= Seq::<Event>::empty());
    assert(views(out@) =~= normal(all.take(0)));
    while i < events.len()
        invariant
            i <= events@.len(),
            all == views(events@),
            views(out@) == normal(all.take(i as int)),
        decreases events@.len() - i,
    {
        let event = &events[i];
        let ghost before = out@;
        proof {
            assert(all.take(i + 1).drop_last() =~= all.take(i as int));
            assert(all.take(i + 1).last() == event@);
            lemma_normal_ids(all.take(i as int), event@.id);
        }
        if !contains_id(&out, event.id.as_str()) {
            let copy = CalendarEvent {
                id: event.id.clone(),
                title: sanitize_title(event.title.as_str()),
                time: event.time,
                kind: event.kind,
            };
            out.push(copy);
            assert(views(out@) =~= views(before).push(cleaned(event@)));
        }
        i = i + 1;
    }
    assert(all.take(all.len() as int) =~= all);
    out
}

/// The rows of the child section: below the first heading inside the planner
/// section with its text, exactly one level below the planner's, up to the
/// next heading at that level or above.
pub open spec fn child_section(
    lines: Seq<Seq<char>>,
    plan: Section,
    text: Seq<char>,
) -> Option<(int, int)> {
    let row = first_row(lines, titled_at(text, plan.level + 1), plan.start, plan.end);
    if row < plan.end {
        Some((row + 1, first_row(lines, at_or_above(plan.level + 1), row + 1, plan.end)))
    } else {
        None
    }
}

/// The rows of the child section: matched case-insensitively at exactly one
/// level below the planner heading, located by heading text.
pub fn find_child_section(
    lines: &Vec<Vec<char>>,
    planner_range: (usize, usize),
    planner_level: usize,
    section: &[char],
) -> (found: Option<(usize, usize)>)
    requires
        planner_range.0 <= planner_range.1 <= lines@.len(),
        planner_level <= 6,
    ensures
        ({
            let plan = Section {
                start: planner_range.0 as int,
                end: planner_range.1 as int,
                level: planner_level as nat,
            };
            match found {
                Some((start, end)) => child_section(texts(lines@), plan, section@) == Some(
                    (start as int, end as int),
                ) && planner_range.0 < start <= end <= planner_range.1,
                None => child_section(texts(lines@), plan, section@) is None,
            }
        }),
{
    let wanted = lowered(trimmed(section));
    let child: usize = planner_level + 1;
    let ghost view = texts(lines@);
    let ghost pred = titled_at(section@, child as nat);
    let mut row: usize = planner_range.0;
    while row < planner_range.1
        invariant
            planner_range.0 <= row <= planner_range.1 <= lines@.len(),
            planner_level <= 6,
            child == planner_level + 1,
            view == texts(lines@),
            pred == titled_at(section@, child as nat),
            wanted@ == lowercase(trim(section@)),
            first_row(view, pred, planner_range.0 as int, planner_range.1 as int) == first_row(
                view,
                pred,
                row as int,
                planner_range.1 as int,
            ),
        decreases planner_range.1 - row,
    {
        assert(view[row as int] == lines@[row as int]@);
        if let Some((level, text)) = heading_level_and_text(lines[row].as_slice()) {
            if level == child && same(lowered(text).as_slice(), wanted.as_slice()) {
                let end: usize = next_heading(lines, child, row + 1, planner_range.1);
                return Some((row + 1, end));
            }
        }
        row = row + 1;
    }
    None
}

/// The row just past the last line of `from..to` that is not blank; `from`
/// where all are.
pub open spec fn past_content(lines: Seq<Seq<char>>, from: int, to: int) -> int
    decreases to - from,
{
    if to <= from {
        from
    } else if !is_blank(lines[to - 1]) {
        to
    } else {
        past_content(lines, from, to - 1)
    }
}

/// The row just past the last non-blank line of a range, where fresh synced
/// lines land.
pub fn after_last_content_row(lines: &Vec<Vec<char>>, from: usize, to: usize) -> (row: usize)
    requires
        from <= to <= lines@.len(),
    ensures
        row == past_content(texts(lines@), from as int, to as int),
        from <= row <= to,
{
    let mut row: usize = to;
    while row > from && blank(lines[row - 1].as_slice())
        invariant
            from <= row <= to <= lines@.len(),
            past_content(texts(lines@), from as int, to as int) == past_content(
                texts(lines@),
                from as int,
                row as int,
            ),
        decreases row,
    {
        assert(texts(lines@)[row - 1] == lines@[row - 1]@);
        row = row - 1;
    }
    assert(row > from ==> texts(lines@)[row - 1] == lines@[row - 1]@);
    row
}

/// A line that an edit puts before a row.
pub open spec fn insert_at(row: int, text: Seq<char>) -> Edit {
    Edit { row, replaces: false, text }
}

/// A line that an edit puts in a row's place.
pub open spec fn replace_at(row: int, text: Seq<char>) -> Edit {
    Edit { row, replaces: true, text }
}

/// `n` number signs.
pub open spec fn hashes(n: nat) -> Seq<char> {
    Seq::new(n, |i: int| '#')
}

/// The lines of the events, in order.
pub open spec fn event_lines(events: Seq<Event>) -> Seq<Seq<char>> {
    events.map_values(|e: Event| event_line(e))
}

/// The lines that create the section: as the last child of the planner
/// section, with blank lines around where there are none.
pub open spec fn section_block(
    lines: Seq<Seq<char>>,
    plan: Section,
    section: Seq<char>,
    events: Seq<Event>,
) -> Seq<Seq<char>> {
    let row = plan.end;
    (if row > 0 && !is_blank(lines[row - 1]) {
        seq![Seq::<char>::empty()]
    } else {
        Seq::empty()
    }) + seq![hashes(plan.level + 1) + seq![' '] + section, Seq::<char>::empty()] + event_lines(
        sorted::<CalendarEvent>(events),
    ) + (if row < lines.len() && !is_blank(lines[row]) {
        seq![Seq::<char>::empty()]
    } else {
        Seq::empty()
    })
}

/// Lines to be put before one row.
pub open spec fn inserts_at(row: int, block: Seq<Seq<char>>) -> Seq<Edit> {
    block.map_values(|text: Seq<char>| insert_at(row, text))
}

/// An edit that puts a line before a row.
pub(crate) fn insert_edit(row: usize, text: &[char]) -> (edit: LineEdit)
    ensures
        edit@ == insert_at(row as int, text@),
{
    LineEdit { row, kind: LineEditKind::Insert(from_chars(text)) }
}

/// An edit that rewrites a row.
pub(crate) fn replace_edit(row: usize, text: &[char]) -> (edit: LineEdit)
    ensures
        edit@ == replace_at(row as int, text@),
{
    LineEdit { row, kind: LineEditKind::Replace(from_chars(text)) }
}

/// The edits that create the section on the first sync with events: last child
/// subsection of the planner section, preceded by a blank line.
pub fn section_creation_edits(
    lines: &Vec<Vec<char>>,
    planner_range: (usize, usize),
    planner_level: usize,
    section: &[char],
    events: Vec<CalendarEvent>,
) -> (edits: Vec<LineEdit>)
    requires
        planner_range.0 <= planner_range.1 <= lines@.len(),
        planner_level <= 6,
    ensures
        views(edits@) == inserts_at(
            planner_range.1 as int,
            section_block(
                texts(lines@),
                Section {
                    start: planner_range.0 as int,
                    end: planner_range.1 as int,
                    level: planner_level as nat,
                },
                section@,
                views(events@),
            ),
        ),
{
    let row: usize = planner_range.1;
    let ghost plan = Section {
        start: planner_range.0 as int,
        end: row as int,
        level: planner_level as nat,
    };
    let ghost view = texts(lines@);
    let empty: Vec<char> = Vec::new();
    assert(empty@ =~= Seq::<char>::empty());
    let mut edits: Vec<LineEdit> = Vec::new();
    assert(row > 0 ==> view[row - 1] == lines@[row - 1]@);
    let ghost mut block: Seq<Seq<char>> = Seq::empty();
    if row > 0 && !blank(lines[row - 1].as_slice()) {
        edits.push(insert_edit(row, empty.as_slice()));
        proof {
            block = seq![Seq::<char>::empty()];
        }
    }
    assert(views(edits@) =~= inserts_at(row as int, block));
    let mut title: Vec<char> = Vec::new();
    let mut i: usize = 0;
    while i < planner_level + 1
        invariant
            i <= planner_level + 1,
            planner_level <= 6,
            title@ == hashes(i as nat),
        decreases planner_level + 1 - i,
    {
        title.push('#');
        i = i + 1;
        assert(title@ =~= hashes(i as nat));
    }
    title.push(' ');
    crate::text::append(&mut title, section);
    assert(title@ =~= hashes(plan.level + 1) + seq![' '] + section@);
    edits.push(insert_edit(row, title.as_slice()));
    edits.push(insert_edit(row, empty.as_slice()));
    proof {
        block = block + seq![title@, Seq::<char>::empty()];
        assert(views(edits@) =~= inserts_at(row as int, block));
    }
    let ordered = sort(events);
    let ghost all = event_lines(sorted::<CalendarEvent>(views(events@)));
    let mut k: usize = 0;
    assert(block + all.take(0) =~= block);
    while k < ordered.len()
        invariant
            k <= ordered@.len(),
            all == event_lines(views(ordered@)),
            views(edits@) == inserts_at(row as int, block + all.take(k as int)),
        decreases ordered@.len() - k,
    {
        let ghost before = edits@;
        let line = crate::synced_line::render_synced_line(&ordered[k]);
        assert(all[k as int] == line@);
        edits.push(insert_edit(row, line.as_slice()));
        assert(block + all.take(k + 1) =~= (block + all.take(k as int)).push(line@));
        assert(views(edits@) =~= views(before).push(insert_at(row as int, line@)));
        assert(views(edits@) =~= inserts_at(row as int, block + all.take(k + 1)));
        k = k + 1;
    }
    assert(all.take(all.len() as int) =~= all);
    assert(row < lines@.len() ==> view[row as int] == lines@[row as int]@);
    assert(all.len() == ordered@.len());
    assert(views(edits@) == inserts_at(row as int, block + all));
    proof {
        block = block + all;
    }
    let ghost before = edits@;
    if row < lines.len() && !blank(lines[row].as_slice()) {
        edits.push(insert_edit(row, empty.as_slice()));
        proof {
            assert(views(edits@) =~= views(before).push(insert_at(row as int, empty@)));
            block = block.push(Seq::<char>::empty());
        }
    }
    proof {
        assert(views(edits@) =~= inserts_at(row as int, block));
        assert(block =~= section_block(view, plan, section@, views(events@)));
    }
    edits
}

} // verus!
