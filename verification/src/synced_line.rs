//! A task line that the calendar syncer wrote: its grammar, and the edits that
//! bring it in step with its event. Positions count characters.

use vstd::prelude::*;
use vstd::slice::slice_subrange;
use crate::day_plan::{parse_range_end, parse_time_prefix, range_end, time_prefix};
use crate::format::{append_two_digits, char_is_hex, char_is_lower, is_hex, is_lower, two_digits};
use crate::lines::{char_position, next_char, slice_to_chars};
use crate::text::{
    append, append_str, begins, body_end, body_len, char_is_white, ends, find, from_chars, is_white,
    last_position, lead, lead_len, matches_at, own, position, rfind, same, stands_at, to_chars,
    trim, trim_end, trimmed, trimmed_end,
};

verus! {

/// Google's `eventType`, narrowed to the distinction the planner acts on.
/// Focus time and out of office are *status* blocks: wide containers for the
/// day rather than things to do.
#[derive(Debug, Clone, Copy, PartialEq, Eq, Structural)]
pub enum EventKind {
    Default,
    FocusTime,
    OutOfOffice,
}

impl Default for EventKind {
    fn default() -> (kind: Self)
        ensures
            kind == EventKind::Default,
    {
        EventKind::Default
    }
}

/// The kind that a Google `eventType` stands for.
pub open spec fn kind_of_google(event_type: Seq<char>) -> EventKind {
    if event_type == "focusTime"@ {
        EventKind::FocusTime
    } else if event_type == "outOfOffice"@ {
        EventKind::OutOfOffice
    } else {
        EventKind::Default
    }
}

/// The suffix that records a kind in a line's marker.
pub open spec fn suffix_of(kind: EventKind) -> Option<Seq<char>> {
    match kind {
        EventKind::Default => None,
        EventKind::FocusTime => Some("focus"@),
        EventKind::OutOfOffice => Some("ooo"@),
    }
}

/// The kind that a marker suffix records, where it is a known one.
pub open spec fn kind_of_suffix(suffix: Seq<char>) -> Option<EventKind> {
    if suffix == "focus"@ {
        Some(EventKind::FocusTime)
    } else if suffix == "ooo"@ {
        Some(EventKind::OutOfOffice)
    } else {
        None
    }
}

impl EventKind {
    /// Maps a Google `eventType` value. Types the planner treats like any
    /// meeting, and any later addition, land on `Default`.
    pub fn from_google(event_type: &str) -> (kind: Self)
        ensures
            kind == kind_of_google(event_type@),
    {
        if crate::text::same_str(event_type, "focusTime") {
            EventKind::FocusTime
        } else if crate::text::same_str(event_type, "outOfOffice") {
            EventKind::OutOfOffice
        } else {
            EventKind::Default
        }
    }

    /// The marker suffix that records this kind in the note.
    pub fn marker_suffix(self) -> (suffix: Option<&'static str>)
        ensures
            match suffix {
                Some(s) => suffix_of(self) == Some(s@),
                None => suffix_of(self) is None,
            },
    {
        match self {
            EventKind::Default => None,
            EventKind::FocusTime => Some("focus"),
            EventKind::OutOfOffice => Some("ooo"),
        }
    }

    /// The kind that a marker suffix records, where it is a known one.
    pub fn from_marker_suffix(suffix: &[char]) -> (kind: Option<Self>)
        ensures
            kind == kind_of_suffix(suffix@),
    {
        if same(suffix, to_chars("focus").as_slice()) {
            Some(EventKind::FocusTime)
        } else if same(suffix, to_chars("ooo").as_slice()) {
            Some(EventKind::OutOfOffice)
        } else {
            None
        }
    }

    /// Whether the Day Planner lays this out in its low-weight lane.
    pub fn is_status(self) -> (status: bool)
        ensures
            status == (self != EventKind::Default),
    {
        self != EventKind::Default
    }
}

/// A normalized event: a time, a title, an id, and its kind.
#[derive(Debug, Clone, PartialEq, Eq)]
pub struct CalendarEvent {
    /// The short digest that travels in the line marker.
    pub id: String,
    pub title: String,
    /// Local minutes since midnight, clamped to the day; `None` for all-day
    /// events, which are written without a time token.
    pub time: Option<(u32, u32)>,
    pub kind: EventKind,
}

/// What an event holds.
pub struct Event {
    pub id: Seq<char>,
    pub title: Seq<char>,
    pub time: Option<(u32, u32)>,
    pub kind: EventKind,
}

impl View for CalendarEvent {
    type V = Event;

    open spec fn view(&self) -> Event {
        Event { id: self.id@, title: self.title@, time: self.time, kind: self.kind }
    }
}

/// The marker that a synced line ends with.
pub open spec fn marker(id: Seq<char>, kind: EventKind) -> Seq<char> {
    match suffix_of(kind) {
        Some(suffix) => "<!--gcal:"@ + id + seq![':'] + suffix + "-->"@,
        None => "<!--gcal:"@ + id + "-->"@,
    }
}

/// The marker for an id and a kind.
pub fn render_marker(id: &[char], kind: EventKind) -> (out: Vec<char>)
    ensures
        out@ == marker(id@, kind),
{
    let mut out: Vec<char> = to_chars("<!--gcal:");
    append(&mut out, id);
    if let Some(suffix) = kind.marker_suffix() {
        out.push(':');
        append_str(&mut out, suffix);
        append_str(&mut out, "-->");
        assert(out@ =~= marker(id@, kind));
        return out;
    }
    append_str(&mut out, "-->");
    out
}

/// Whether every character is a hexadecimal digit.
pub open spec fn all_hex(s: Seq<char>) -> bool {
    forall|i: int| 0 <= i < s.len() ==> is_hex(#[trigger] s[i])
}

/// Whether every character is a letter `a` to `z`.
pub open spec fn all_lower(s: Seq<char>) -> bool {
    forall|i: int| 0 <= i < s.len() ==> is_lower(#[trigger] s[i])
}

/// Whether every character is a hexadecimal digit.
fn is_all_hex(s: &[char]) -> (yes: bool)
    ensures
        yes == all_hex(s@),
{
    let mut i: usize = 0;
    while i < s.len()
        invariant
            i <= s@.len(),
            forall|j: int| 0 <= j < i ==> is_hex(#[trigger] s@[j]),
        decreases s@.len() - i,
    {
        if !char_is_hex(s[i]) {
            return false;
        }
        i = i + 1;
    }
    true
}

/// Whether every character is a letter `a` to `z`.
fn is_all_lower(s: &[char]) -> (yes: bool)
    ensures
        yes == all_lower(s@),
{
    let mut i: usize = 0;
    while i < s.len()
        invariant
            i <= s@.len(),
            forall|j: int| 0 <= j < i ==> is_lower(#[trigger] s@[j]),
        decreases s@.len() - i,
    {
        if !char_is_lower(s[i]) {
            return false;
        }
        i = i + 1;
    }
    true
}

/// The id and the kind suffix of a well-formed marker payload. The id is hex;
/// a suffix of small letters stands behind a colon.
pub open spec fn payload(p: Seq<char>) -> Option<(Seq<char>, Option<Seq<char>>)> {
    let colon = next_char(p, ':', 0);
    let id = p.take(colon);
    if id.len() == 0 || !all_hex(id) {
        None
    } else if colon >= p.len() {
        Some((id, None))
    } else {
        let suffix = p.skip(colon + 1);
        if suffix.len() == 0 || !all_lower(suffix) {
            None
        } else {
            Some((id, Some(suffix)))
        }
    }
}

/// The id and the kind suffix of a well-formed marker payload.
pub fn marker_payload(p: &[char]) -> (found: Option<(&[char], Option<&[char]>)>)
    ensures
        match found {
            Some((id, Some(suffix))) => payload(p@) == Some((id@, Some(suffix@))),
            Some((id, None)) => payload(p@) == Some((id@, None::<Seq<char>>)),
            None => payload(p@) is None,
        },
{
    let colon: usize = char_position(p, ':', 0);
    let id = slice_subrange(p, 0, colon);
    assert(id@ =~= p@.take(colon as int));
    if id.len() == 0 || !is_all_hex(id) {
        return None;
    }
    if colon >= p.len() {
        return Some((id, None));
    }
    let suffix = slice_subrange(p, colon + 1, p.len());
    assert(suffix@ =~= p@.skip(colon + 1));
    if suffix.len() == 0 || !is_all_lower(suffix) {
        return None;
    }
    Some((id, Some(suffix)))
}

/// The `(id, kind suffix)` of a well-formed marker payload. An unrecognized
/// suffix is returned verbatim, so that a marker with one still identifies its
/// line.
pub fn parse_marker_payload(p: &str) -> (found: Option<(String, Option<String>)>)
    ensures
        match found {
            Some((id, Some(suffix))) => payload(p@) == Some((id@, Some(suffix@))),
            Some((id, None)) => payload(p@) == Some((id@, None::<Seq<char>>)),
            None => payload(p@) is None,
        },
{
    let chars = to_chars(p);
    match marker_payload(chars.as_slice()) {
        Some((id, Some(suffix))) => Some((from_chars(id), Some(from_chars(suffix)))),
        Some((id, None)) => Some((from_chars(id), None)),
        None => None,
    }
}

/// Where the trailing marker of a line starts, with its id and suffix.
#[verifier::opaque]
pub open spec fn line_marker(line: Seq<char>) -> Option<(int, Seq<char>, Option<Seq<char>>)> {
    let t = trim_end(line);
    match rfind(t, "<!--gcal:"@) {
        Some(at) => {
            let behind = t.skip(at + 9);
            if ends(behind, "-->"@) {
                match payload(behind.take(behind.len() - 3)) {
                    Some((id, suffix)) => Some((at, id, suffix)),
                    None => None,
                }
            } else {
                None
            }
        },
        None => None,
    }
}

/// Where the trailing marker of a line starts, with its id and suffix.
fn find_marker(line: &[char]) -> (found: Option<(usize, &[char], Option<&[char]>)>)
    ensures
        match found {
            Some((at, id, suffix)) => at + 9 <= body_len(line@) && matches_at(
                line@,
                "<!--gcal:"@,
                at as int,
            ) && line_marker(line@) == Some(
                (
                    at as int,
                    id@,
                    match suffix {
                        Some(s) => Some(s@),
                        None => None,
                    },
                ),
            ),
            None => line_marker(line@) is None,
        },
{
    proof {
        reveal(line_marker);
    }
    proof {
        reveal_strlit("<!--gcal:");
        reveal_strlit("-->");
        crate::text::lemma_body(line@);
    }
    let t = trimmed_end(line);
    let prefix = to_chars("<!--gcal:");
    let close = to_chars("-->");
    let n: usize = t.len();
    match last_position(t, prefix.as_slice()) {
        Some(at) => {
            proof {
                crate::text::lemma_rfind_to(t@, prefix@, t@.len() - 9);
                assert(line@.subrange(at as int, at + 9) =~= t@.subrange(at as int, at + 9));
            }
            let behind = slice_subrange(t, at + 9, n);
            if behind.len() < 3 || !stands_at(behind, close.as_slice(), behind.len() - 3) {
                return None;
            }
            let inner = slice_subrange(behind, 0, behind.len() - 3);
            assert(behind@ =~= t@.skip(at + 9));
            assert(inner@ =~= behind@.take(behind@.len() - 3));
            match marker_payload(inner) {
                Some((id, suffix)) => Some((at, id, suffix)),
                None => None,
            }
        },
        None => None,
    }
}

/// The kind that a line's trailing marker records; `Default` where there is
/// none.
pub open spec fn kind_of_line(line: Seq<char>) -> EventKind {
    match line_marker(line) {
        Some((_, _, Some(suffix))) => match kind_of_suffix(suffix) {
            Some(kind) => kind,
            None => EventKind::Default,
        },
        _ => EventKind::Default,
    }
}

/// The event kind recorded in a line's trailing sync marker. Lines the syncer
/// never wrote are `Default`.
pub fn line_event_kind(line: &str) -> (kind: EventKind)
    ensures
        kind == kind_of_line(line@),
{
    let chars = to_chars(line);
    match find_marker(chars.as_slice()) {
        Some((_, _, Some(suffix))) => match EventKind::from_marker_suffix(suffix) {
            Some(kind) => kind,
            None => EventKind::Default,
        },
        _ => EventKind::Default,
    }
}

/// Where the checkbox of a task line ends: indentation, a bullet, white space,
/// then `[ ]`, `[x]` or `[X]`.
#[verifier::opaque]
pub open spec fn box_end(line: Seq<char>) -> Option<int> {
    let bullet = lead(line) as int;
    if bullet < line.len() && (line[bullet] == '-' || line[bullet] == '*' || line[bullet] == '+') {
        let space = lead(line.skip(bullet + 1)) as int;
        let at = bullet + 1 + space;
        if space > 0 && at + 2 < line.len() && line[at] == '[' && (line[at + 1] == ' ' || line[at
            + 1] == 'x' || line[at + 1] == 'X') && line[at + 2] == ']' {
            Some(at + 3)
        } else {
            None
        }
    } else {
        None
    }
}

/// Where the text of a checkbox line starts: behind the checkbox and white
/// space, or at the end of the line.
#[verifier::opaque]
pub open spec fn text_offset(line: Seq<char>) -> Option<int> {
    match box_end(line) {
        Some(end) => {
            let space = lead(line.skip(end)) as int;
            if space == 0 && end < line.len() {
                None
            } else {
                Some(end + space)
            }
        },
        None => None,
    }
}

/// Nothing in front of a checkbox line's text is an angle bracket.
pub proof fn lemma_text_offset(line: Seq<char>)
    ensures
        box_end(line) matches Some(end) ==> 5 <= end <= line.len() && !is_white(line[end - 1])
            && forall|i: int| 0 <= i < end ==> #[trigger] line[i] != '<',
        text_offset(line) matches Some(at) ==> box_end(line) is Some && box_end(line)->0 <= at
            <= line.len() && (forall|i: int| 0 <= i < at ==> #[trigger] line[i] != '<') && (forall|
            i: int,
        |
            box_end(line)->0 <= i < at ==> is_white(#[trigger] line[i])) && (at < line.len()
            ==> !is_white(line[at])),
{
    reveal(box_end);
    reveal(text_offset);
    if let Some(end) = box_end(line) {
        let bullet = lead(line) as int;
        let after = line.skip(bullet + 1);
        let space = lead(after) as int;
        crate::text::lemma_lead(line);
        crate::text::lemma_lead(after);
        assert forall|i: int| 0 <= i < end implies #[trigger] line[i] != '<' by {
            if bullet < i < bullet + 1 + space {
                assert(is_white(after[i - bullet - 1]));
            }
        }
        let rest = line.skip(end);
        crate::text::lemma_lead(rest);
        if let Some(at) = text_offset(line) {
            assert forall|i: int| end <= i < at implies is_white(#[trigger] line[i]) by {
                assert(is_white(rest[i - end]));
            }
            assert forall|i: int| 0 <= i < at implies #[trigger] line[i] != '<' by {
                if i >= end {
                    assert(is_white(line[i]));
                }
            }
            if at < line.len() {
                assert(line[at] == rest[at - end]);
            }
        }
    }
}

/// Where the text of a checkbox line starts. Liberal (any bullet, any indent),
/// so that a line re-indented under another task is still recognized.
pub fn checkbox_text_offset(line: &[char]) -> (at: Option<usize>)
    ensures
        match at {
            Some(i) => text_offset(line@) == Some(i as int) && i <= line@.len(),
            None => text_offset(line@) is None,
        },
{
    proof {
        reveal(box_end);
        reveal(text_offset);
    }
    let bullet: usize = lead_len(line);
    if bullet >= line.len() {
        return None;
    }
    let c: char = line[bullet];
    if c != '-' && c != '*' && c != '+' {
        return None;
    }
    let space: usize = lead_len(slice_subrange(line, bullet + 1, line.len()));
    let at: usize = bullet + 1 + space;
    if space == 0 || line.len() - at < 3 {
        return None;
    }
    let mark: char = line[at + 1];
    if line[at] != '[' || (mark != ' ' && mark != 'x' && mark != 'X') || line[at + 2] != ']' {
        return None;
    }
    let end: usize = at + 3;
    let more: usize = lead_len(slice_subrange(line, end, line.len()));
    if more == 0 && end < line.len() {
        return None;
    }
    Some(end + more)
}

/// Whether a token may end here: at the end, or in front of white space.
pub open spec fn clear(s: Seq<char>) -> bool {
    s.len() == 0 || is_white(s[0])
}

fn is_clear(s: &[char]) -> (yes: bool)
    ensures
        yes == clear(s@),
{
    s.len() == 0 || char_is_white(s[0])
}

/// The start minute and the length of a leading time token: a range or a start
/// alone, followed by white space or nothing.
#[verifier::opaque]
pub open spec fn time_token(text: Seq<char>) -> Option<(int, int)> {
    match time_prefix(text) {
        Some((start, rest)) => match range_end(rest) {
            Some((_, after)) => if clear(after) {
                Some((start, text.len() - after.len()))
            } else if clear(rest) {
                Some((start, text.len() - rest.len()))
            } else {
                None
            },
            None => if clear(rest) {
                Some((start, text.len() - rest.len()))
            } else {
                None
            },
        },
        None => None,
    }
}

/// The start minute and the length of a leading time token.
pub fn leading_time_token(text: &[char]) -> (found: Option<(u32, usize)>)
    ensures
        match found {
            Some((start, len)) => time_token(text@) == Some((start as int, len as int)) && start
                < 1440 && len <= text@.len(),
            None => time_token(text@) is None,
        },
{
    proof {
        reveal(time_token);
    }
    match parse_time_prefix(text) {
        Some((start, rest)) => {
            if let Some((_, after)) = parse_range_end(rest) {
                if is_clear(after) {
                    return Some((start, text.len() - after.len()));
                }
            }
            if is_clear(rest) {
                return Some((start, text.len() - rest.len()));
            }
            None
        },
        None => None,
    }
}

/// When `text` is `title` plus optional trailing content behind white space,
/// that trailing content.
pub open spec fn trailing_of(text: Seq<char>, title: Seq<char>) -> Option<Seq<char>> {
    if title.len() == 0 {
        Some(text)
    } else if begins(text, title) && clear(text.skip(title.len() as int)) {
        Some(text.skip(title.len() as int))
    } else {
        None
    }
}

/// When `text` is `title` plus optional trailing content behind white space,
/// that trailing content (empty for an exact match). `None` means that the
/// title was rewritten.
pub fn title_trailing<'a>(text: &'a [char], title: &[char]) -> (found: Option<&'a [char]>)
    ensures
        match found {
            Some(rest) => trailing_of(text@, title@) == Some(rest@),
            None => trailing_of(text@, title@) is None,
        },
{
    if title.len() == 0 {
        return Some(text);
    }
    if !stands_at(text, title, 0) {
        return None;
    }
    let rest = slice_subrange(text, title.len(), text.len());
    assert(rest@ =~= text@.skip(title@.len() as int));
    if is_clear(rest) {
        Some(rest)
    } else {
        None
    }
}

/// A range of the day as the note writes it: `09:30 - 10:00`.
pub open spec fn range_token(start: nat, end: nat) -> Seq<char> {
    two_digits(start / 60) + seq![':'] + two_digits(start % 60) + " - "@ + two_digits(end / 60)
        + seq![':'] + two_digits(end % 60)
}

/// A range of the day as the note writes it.
pub fn format_time_token(start: u32, end: u32) -> (out: Vec<char>)
    ensures
        out@ == range_token(start as nat, end as nat),
{
    let mut out: Vec<char> = Vec::new();
    append_two_digits(&mut out, (start / 60) as u64);
    out.push(':');
    append_two_digits(&mut out, (start % 60) as u64);
    append_str(&mut out, " - ");
    append_two_digits(&mut out, (end / 60) as u64);
    out.push(':');
    append_two_digits(&mut out, (end % 60) as u64);
    assert(out@ =~= range_token(start as nat, end as nat));
    out
}

/// The time token that an event's line carries; none for an all-day event.
pub open spec fn event_token(event: Event) -> Option<Seq<char>> {
    match event.time {
        Some((start, end)) => Some(range_token(start as nat, end as nat)),
        None => None,
    }
}

/// A time token and a text, with one space between them where both are there.
pub open spec fn content(token: Option<Seq<char>>, text: Seq<char>) -> Seq<char> {
    match token {
        Some(t) => if text.len() == 0 {
            t
        } else {
            t + seq![' '] + text
        },
        None => text,
    }
}

/// The line that a new event gets.
pub open spec fn event_line(event: Event) -> Seq<char> {
    let body = content(event_token(event), event.title);
    "- [ ] "@ + (if body.len() == 0 {
        body
    } else {
        body + seq![' ']
    }) + marker(event.id, event.kind)
}

/// The line that a new event gets.
pub fn render_synced_line(event: &CalendarEvent) -> (out: Vec<char>)
    ensures
        out@ == event_line(event@),
{
    proof {
        reveal_strlit(" - ");
    }
    let mut out: Vec<char> = to_chars("- [ ] ");
    if let Some((start, end)) = event.time {
        append(&mut out, format_time_token(start, end).as_slice());
        out.push(' ');
    }
    let title = to_chars(event.title.as_str());
    if title.len() > 0 {
        append(&mut out, title.as_slice());
        out.push(' ');
    }
    let id = to_chars(event.id.as_str());
    append(&mut out, render_marker(id.as_slice(), event.kind).as_slice());
    assert(out@ =~= event_line(event@));
    out
}

/// A synced line, taken apart.
pub struct Synced {
    pub line: Seq<char>,
    pub id: Seq<char>,
    /// The marker's kind suffix as written.
    pub suffix: Option<Seq<char>>,
    /// The start minute of the time token.
    pub start: Option<int>,
    /// The time token, where there is one.
    pub token: Option<(int, int)>,
    /// The text between the token (or the checkbox) and the marker, trimmed.
    pub text: (int, int),
    /// The whole marker.
    pub marker: (int, int),
}

/// A line of the synced-line grammar, taken apart; `None` for any other line.
pub open spec fn synced(line: Seq<char>) -> Option<Synced> {
    match (line_marker(line), text_offset(line)) {
        (Some((at, id, suffix)), Some(offset)) => {
            let before = line.subrange(offset, at);
            let len = match time_token(before) {
                Some((_, n)) => n,
                None => 0,
            };
            let after = before.skip(len);
            let text_start = offset + len + lead(after) as int;
            Some(
                Synced {
                    line,
                    id,
                    suffix,
                    start: match time_token(before) {
                        Some((start, _)) => Some(start),
                        None => None,
                    },
                    token: if len > 0 {
                        Some((offset, offset + len))
                    } else {
                        None
                    },
                    text: (text_start, text_start + trim(after).len() as int),
                    marker: (at, body_len(line) as int),
                },
            )
        },
        _ => None,
    }
}

impl Synced {
    /// The text region.
    pub open spec fn words(self) -> Seq<char> {
        self.line.subrange(self.text.0, self.text.1)
    }

    /// The time token as written.
    pub open spec fn token_text(self) -> Option<Seq<char>> {
        match self.token {
            Some((from, to)) => Some(self.line.subrange(from, to)),
            None => None,
        }
    }

    /// Where the region that an edit rewrites starts.
    pub open spec fn content_start(self) -> int {
        match self.token {
            Some((from, _)) => from,
            None => self.text.0,
        }
    }

    /// The line with its token and text replaced, and its marker where one is
    /// given; everything else as it stands.
    pub open spec fn rebuild(
        self,
        token: Option<Seq<char>>,
        text: Seq<char>,
        new_marker: Option<Seq<char>>,
    ) -> Seq<char> {
        self.line.take(self.content_start()) + content(token, text) + self.line.subrange(
            self.text.1,
            self.marker.0,
        ) + (match new_marker {
            Some(m) => m,
            None => self.line.subrange(self.marker.0, self.marker.1),
        }) + self.line.skip(self.marker.1)
    }

    /// The marker that the line needs for `kind`; `None` where its own says it
    /// already, or has a suffix that is not known.
    pub open spec fn new_marker(self, kind: EventKind) -> Option<Seq<char>> {
        if self.suffix == suffix_of(kind) {
            None
        } else if self.suffix is Some && kind_of_suffix(self.suffix->0) is None {
            None
        } else {
            Some(marker(self.id, kind))
        }
    }

    /// The line struck through as cancelled.
    pub open spec fn cancelled_line(self) -> Seq<char> {
        self.rebuild(self.token_text(), "~~"@ + self.words() + "~~ (cancelled)"@, None)
    }

    /// All the text in front of the marker, a time token with it.
    pub open spec fn whole(self) -> Seq<char> {
        trim_end(self.line.subrange(self.content_start(), self.marker.0))
    }

    /// The token and the text that the line shows for `event`. An all-day event
    /// has no token: its text is the whole.
    pub open spec fn shown(self, event: Event) -> (Option<Seq<char>>, Seq<char>) {
        if event.time is Some {
            (self.token_text(), self.words())
        } else {
            (None, self.whole())
        }
    }

    /// The text that the line has to show for `event`; `None` where its title
    /// was rewritten.
    pub open spec fn aim(self, event: Event) -> Option<Seq<char>> {
        aimed(self.token_text(), self.words(), self.whole(), event)
    }

    /// The line in step with `event`; `None` where its title was rewritten.
    pub open spec fn update(self, event: Event) -> Option<Seq<char>> {
        let mark = self.new_marker(event.kind);
        match self.aim(event) {
            Some(text) => Some(
                if mark is None && self.shown(event) == (event_token(event), text) {
                    self.line
                } else {
                    self.rebuild(event_token(event), text, mark)
                },
            ),
            None => None,
        }
    }
}

/// The inner and the trailing text of the cancelled form.
pub open spec fn cancelled(text: Seq<char>) -> Option<(Seq<char>, Seq<char>)> {
    if begins(text, "~~"@) {
        let inner = text.skip(2);
        match find(inner, "~~ (cancelled)"@) {
            Some(end) => Some((inner.take(end), inner.skip(end + 14))),
            None => None,
        }
    } else {
        None
    }
}

/// The cancelled form is longer than what it holds.
pub proof fn lemma_cancelled_len(text: Seq<char>)
    ensures
        cancelled(text) matches Some((inner, trailing)) ==> inner.len() + trailing.len() + 16
            == text.len(),
{
    reveal_strlit("~~");
    reveal_strlit("~~ (cancelled)");
    if cancelled(text) is Some {
        crate::text::lemma_find_from(text.skip(2), "~~ (cancelled)"@, 0);
    }
}

/// The cancelled form, taken apart.
fn split_mark(text: &[char]) -> (found: Option<(&[char], &[char])>)
    ensures
        match found {
            Some((inner, trailing)) => cancelled(text@) == Some((inner@, trailing@)),
            None => cancelled(text@) is None,
        },
{
    proof {
        reveal_strlit("~~");
        reveal_strlit("~~ (cancelled)");
    }
    if !stands_at(text, to_chars("~~").as_slice(), 0) {
        return None;
    }
    let inner = slice_subrange(text, 2, text.len());
    assert(inner@ =~= text@.skip(2));
    match position(inner, to_chars("~~ (cancelled)").as_slice()) {
        Some(end) => {
            proof {
                crate::text::lemma_find_from(inner@, "~~ (cancelled)"@, 0);
                assert(inner@.subrange(0, end as int) =~= inner@.take(end as int));
            }
            Some((slice_subrange(inner, 0, end), slice_subrange(inner, end + 14, inner.len())))
        },
        None => None,
    }
}

/// The length of the time token that a text begins with; zero without one.
pub open spec fn token_len(c: Seq<char>) -> int {
    match time_token(c) {
        Some((_, n)) => n,
        None => 0,
    }
}

/// The time token that a text begins with.
pub open spec fn token_of(c: Seq<char>) -> Option<Seq<char>> {
    if token_len(c) > 0 {
        Some(c.take(token_len(c)))
    } else {
        None
    }
}

/// A text without the cancellation marks that it begins with.
pub open spec fn plain(s: Seq<char>) -> Seq<char>
    decreases s.len(),
{
    match cancelled(trim(s)) {
        Some((inner, trailing)) => {
            proof {
                lemma_cancelled_len(trim(s));
                crate::clean::lemma_trim_ends(s);
            }
            plain(inner + trailing)
        },
        None => s,
    }
}

/// What an all-day event without a title leaves of a text: no cancellation
/// mark, and no time token either, unless another would come to the front.
pub open spec fn bare(s: Seq<char>) -> Seq<char>
    decreases s.len(),
{
    let words = trim(s.skip(token_len(s)));
    match cancelled(words) {
        Some((inner, trailing)) => {
            proof {
                lemma_bare_shrinks(s);
            }
            bare(trim(content(token_of(s), inner + trailing)))
        },
        None => if token_len(s) > 0 && token_len(words) == 0 {
            words
        } else {
            s
        },
    }
}

/// Taking a mark out of a text leaves a shorter one.
pub proof fn lemma_bare_shrinks(s: Seq<char>)
    ensures
        cancelled(trim(s.skip(token_len(s)))) matches Some((inner, trailing)) ==> trim(
            content(token_of(s), inner + trailing),
        ).len() < s.len(),
{
    let words = trim(s.skip(token_len(s)));
    if let Some((inner, trailing)) = cancelled(words) {
        lemma_time_token_len(s);
        lemma_cancelled_len(words);
        crate::clean::lemma_trim_ends(s.skip(token_len(s)));
        crate::clean::lemma_trim_ends(content(token_of(s), inner + trailing));
    }
}

/// The user's own words behind the title in a text that was struck through;
/// none where the text is not the title with words behind it. The title of an
/// all-day event may begin with a time, which then stands in front as the token.
pub open spec fn own_words(
    token: Option<Seq<char>>,
    inner: Seq<char>,
    title: Seq<char>,
) -> Seq<char> {
    match (trailing_of(inner, title), trailing_of(content(token, inner), title)) {
        (Some(words), _) => words,
        (None, Some(words)) => words,
        (None, None) => Seq::empty(),
    }
}

/// The title with words behind it, parted from it so that the text still reads
/// as the title's.
pub open spec fn revived(title: Seq<char>, words: Seq<char>) -> Seq<char> {
    trim_end(
        title + (if clear(words) {
            words
        } else {
            seq![' '] + words
        }),
    )
}

/// Whether an old time stands in front of an all-day event's title: the text's
/// time token is not the one that the title begins with, and the title stands
/// behind it.
pub open spec fn has_old_time(text: Seq<char>, title: Seq<char>) -> bool {
    let words = trim(text.skip(token_len(text)));
    &&& token_len(text) != token_len(title)
    &&& token_len(words) == token_len(title)
    &&& trailing_of(words, title) is Some
}

/// An all-day event's text without an old time in front of the title.
pub open spec fn untimed(text: Seq<char>, title: Seq<char>) -> Seq<char> {
    if has_old_time(text, title) {
        trim(text.skip(token_len(text)))
    } else {
        text
    }
}

/// The text that a line has to show for `event`, where it has the given token,
/// words and whole text; `None` where its title was rewritten. A text that
/// begins with the event's title is the event's, whatever it looks like; only
/// another may be a cancellation mark, which an event that came back takes off.
pub open spec fn aimed(
    token: Option<Seq<char>>,
    words: Seq<char>,
    whole: Seq<char>,
    event: Event,
) -> Option<Seq<char>> {
    let title = event.title;
    if title.len() == 0 {
        Some(
            if event.time is Some {
                trim_end(plain(words))
            } else {
                bare(whole)
            },
        )
    } else if event.time is Some {
        named_text(None, words, title)
    } else {
        match (trailing_of(whole, title), named_text(token, words, title)) {
            (Some(_), _) => Some(untimed(whole, title)),
            (None, Some(text)) => Some(untimed(text, title)),
            (None, None) => None,
        }
    }
}

/// The text with the event's title that a line's words stand for: the words
/// themselves, or what was struck through; `None` where the title was rewritten.
pub open spec fn named_text(
    token: Option<Seq<char>>,
    words: Seq<char>,
    title: Seq<char>,
) -> Option<Seq<char>> {
    if trailing_of(words, title) is Some {
        Some(words)
    } else {
        match cancelled(words) {
            Some((inner, trailing)) => Some(
                revived(title, own_words(token, inner, title) + trailing),
            ),
            None => None,
        }
    }
}

/// A text without the cancellation marks that it begins with.
fn without_marks(s: &[char]) -> (out: Vec<char>)
    ensures
        out@ == plain(s@),
{
    let mut cur: Vec<char> = slice_to_chars(s);
    loop
        invariant
            plain(cur@) == plain(s@),
        decreases cur@.len(),
    {
        let mut next: Vec<char> = Vec::new();
        match split_mark(trimmed(cur.as_slice())) {
            Some((inner, trailing)) => {
                proof {
                    lemma_cancelled_len(trim(cur@));
                    crate::clean::lemma_trim_ends(cur@);
                }
                append(&mut next, inner);
                append(&mut next, trailing);
                assert(next@ =~= inner@ + trailing@);
            },
            None => {
                return cur;
            },
        }
        cur = next;
    }
}

/// A time token and a text, with one space between them where both are there.
fn with_token(token: &[char], text: &[char]) -> (out: Vec<char>)
    requires
        token@.len() > 0,
    ensures
        out@ == content(Some(token@), text@),
{
    let mut out: Vec<char> = slice_to_chars(token);
    if text.len() > 0 {
        out.push(' ');
        append(&mut out, text);
    }
    assert(out@ =~= content(Some(token@), text@));
    out
}

/// What an all-day event without a title leaves of a text.
fn bare_text(s: &[char]) -> (out: Vec<char>)
    ensures
        out@ == bare(s@),
{
    let mut cur: Vec<char> = slice_to_chars(s);
    loop
        invariant
            bare(cur@) == bare(s@),
        decreases cur@.len(),
    {
        proof {
            lemma_time_token_len(cur@);
            lemma_bare_shrinks(cur@);
        }
        let n: usize = token_length(cur.as_slice());
        let behind = slice_subrange(cur.as_slice(), n, cur.len());
        assert(behind@ =~= cur@.skip(token_len(cur@)));
        let words = trimmed(behind);
        let mut next: Vec<char> = Vec::new();
        match split_mark(words) {
            Some((inner, trailing)) => {
                append(&mut next, inner);
                append(&mut next, trailing);
                assert(next@ =~= inner@ + trailing@);
                if n > 0 {
                    let token = slice_subrange(cur.as_slice(), 0, n);
                    assert(token@ =~= cur@.take(n as int));
                    next = with_token(token, next.as_slice());
                }
            },
            None => {
                if n > 0 && token_length(words) == 0 {
                    return slice_to_chars(words);
                }
                return cur;
            },
        }
        cur = slice_to_chars(trimmed(next.as_slice()));
    }
}

/// The text that a line has to show for `event`; `None` where its title was
/// rewritten.
fn aimed_text(
    token: Option<&[char]>,
    words: &[char],
    whole: &[char],
    event: &CalendarEvent,
) -> (out: Option<Vec<char>>)
    requires
        token matches Some(t) ==> t@.len() > 0,
    ensures
        match out {
            Some(text) => aimed(
                match token {
                    Some(t) => Some(t@),
                    None => None,
                },
                words@,
                whole@,
                event@,
            ) == Some(text@),
            None => aimed(
                match token {
                    Some(t) => Some(t@),
                    None => None,
                },
                words@,
                whole@,
                event@,
            ) is None,
        },
{
    let title = to_chars(event.title.as_str());
    let timed: bool = event.time.is_some();
    if title.len() == 0 {
        return Some(
            if timed {
                slice_to_chars(trimmed_end(without_marks(words).as_slice()))
            } else {
                bare_text(whole)
            },
        );
    }
    if timed {
        return titled_words(None, words, title.as_slice());
    }
    if title_trailing(whole, title.as_slice()).is_some() {
        return Some(untimed_text(whole, title.as_slice()));
    }
    match titled_words(token, words, title.as_slice()) {
        Some(text) => Some(untimed_text(text.as_slice(), title.as_slice())),
        None => None,
    }
}

/// An all-day event's text without an old time in front of the title.
fn untimed_text(text: &[char], title: &[char]) -> (out: Vec<char>)
    ensures
        out@ == untimed(text@, title@),
{
    proof {
        lemma_time_token_len(text@);
        lemma_time_token_len(title@);
    }
    let n: usize = token_length(text);
    let behind = slice_subrange(text, n, text.len());
    assert(behind@ =~= text@.skip(n as int));
    let words = trimmed(behind);
    let own_time: usize = token_length(title);
    if n != own_time && token_length(words) == own_time && title_trailing(words, title).is_some() {
        slice_to_chars(words)
    } else {
        slice_to_chars(text)
    }
}

/// The length of the time token that a text begins with; zero without one.
fn token_length(text: &[char]) -> (n: usize)
    ensures
        n == token_len(text@),
        n <= text@.len(),
{
    match leading_time_token(text) {
        Some((_, n)) => n,
        None => 0,
    }
}

/// The text with the event's title that a line's words stand for; `None` where
/// the title was rewritten.
fn titled_words(token: Option<&[char]>, words: &[char], title: &[char]) -> (out: Option<Vec<char>>)
    requires
        token matches Some(t) ==> t@.len() > 0,
    ensures
        match out {
            Some(text) => named_text(
                match token {
                    Some(t) => Some(t@),
                    None => None,
                },
                words@,
                title@,
            ) == Some(text@),
            None => named_text(
                match token {
                    Some(t) => Some(t@),
                    None => None,
                },
                words@,
                title@,
            ) is None,
        },
{
    if title_trailing(words, title).is_some() {
        return Some(slice_to_chars(words));
    }
    match split_mark(words) {
        Some((inner, trailing)) => {
            // A re-created event with the same id un-marks the cancellation;
            // the words that were struck through with the title come back.
            let whole: Vec<char> = match token {
                Some(t) => with_token(t, inner),
                None => slice_to_chars(inner),
            };
            let mut rest: Vec<char> = Vec::new();
            if let Some(own) = title_trailing(inner, title) {
                append(&mut rest, own);
            } else if let Some(own) = title_trailing(whole.as_slice(), title) {
                append(&mut rest, own);
            }
            append(&mut rest, trailing);
            let ghost front = match token {
                Some(t) => Some(t@),
                None => None,
            };
            assert(rest@ =~= own_words(front, inner@, title@) + trailing@);
            let mut text = slice_to_chars(title);
            if !is_clear(rest.as_slice()) {
                text.push(' ');
            }
            append(&mut text, rest.as_slice());
            assert(text@ =~= title@ + (if clear(rest@) {
                rest@
            } else {
                seq![' '] + rest@
            }));
            Some(slice_to_chars(trimmed_end(text.as_slice())))
        },
        None => None,
    }
}

/// The parts of a synced line lie in order.
pub proof fn lemma_synced(line: Seq<char>)
    ensures
        synced(line) matches Some(p) ==> {
            &&& p.line == line
            &&& text_offset(line) is Some
            &&& line_marker(line) == Some((p.marker.0, p.id, p.suffix))
            &&& 0 <= text_offset(line)->0 <= p.content_start() <= p.text.0 <= p.text.1 <= p.marker.0
            &&& p.marker.0 + 9 <= p.marker.1 <= line.len()
            &&& p.marker.1 == body_len(line)
            &&& p.token matches Some((from, to)) ==> from == text_offset(line)->0 && from < to
                <= p.text.0
        },
{
    reveal(line_marker);
    reveal_strlit("<!--gcal:");
    if let Some(p) = synced(line) {
        let t = trim_end(line);
        let at = p.marker.0;
        let offset = text_offset(line)->0;
        crate::text::lemma_body(line);
        crate::text::lemma_rfind_to(t, "<!--gcal:"@, t.len() - 9);
        lemma_text_offset(line);
        assert(t.subrange(at, at + 9)[0] == '<');
        assert(line[at] == '<');
        assert(offset <= at);
        let before = line.subrange(offset, at);
        lemma_time_token_len(before);
        let len = match time_token(before) {
            Some((_, n)) => n,
            None => 0,
        };
        let after = before.skip(len);
        crate::text::lemma_lead(after);
        crate::text::lemma_body(crate::text::trim_start(after));
    }
}

/// A time token lies inside its text.
pub proof fn lemma_time_token_len(text: Seq<char>)
    ensures
        time_token(text) matches Some((start, len)) ==> 0 < len <= text.len() && 0 <= start < 1440,
{
    reveal(time_token);
    if let Some((start, rest)) = time_prefix(text) {
        crate::text::lemma_lead(rest);
        if let Some((_, after)) = range_end(rest) {
            let at = lead(rest) as int;
            let behind = rest.skip(at + 1);
            crate::text::lemma_lead(behind);
        }
    }
}

/// A line in the Calendar section matching the synced-line grammar, with the
/// places of its parts, so that edits splice the line instead of rendering it
/// anew: indentation, bullet style, checkbox, and any trailing text survive
/// verbatim.
#[derive(Debug)]
pub struct SyncedLine {
    pub row: usize,
    pub line: Vec<char>,
    pub id: String,
    /// Start minute of the time token, for insert ordering.
    pub sort_start: Option<u32>,
    /// The time token (no surrounding white space).
    pub token_span: Option<(usize, usize)>,
    /// The text between the time token (or checkbox) and the marker, trimmed.
    pub text_span: (usize, usize),
    /// The whole marker.
    pub marker_span: (usize, usize),
    /// The marker's kind suffix as written. Kept raw, so that one that is not
    /// known is left alone.
    pub marker_suffix: Option<Vec<char>>,
}

impl SyncedLine {
    /// The parts that this value records.
    pub open spec fn parts(self) -> Synced {
        Synced {
            line: self.line@,
            id: self.id@,
            suffix: match self.marker_suffix {
                Some(s) => Some(s@),
                None => None,
            },
            start: match self.sort_start {
                Some(n) => Some(n as int),
                None => None,
            },
            token: match self.token_span {
                Some((from, to)) => Some((from as int, to as int)),
                None => None,
            },
            text: (self.text_span.0 as int, self.text_span.1 as int),
            marker: (self.marker_span.0 as int, self.marker_span.1 as int),
        }
    }

    /// Whether the recorded parts are those of the line.
    pub open spec fn wf(self) -> bool {
        synced(self.line@) == Some(self.parts())
    }

    /// Takes a line of the synced-line grammar apart.
    pub fn parse(row: usize, line: &str) -> (found: Option<Self>)
        ensures
            match found {
                Some(s) => s.row == row && s.line@ == line@ && s.wf(),
                None => synced(line@) is None,
            },
    {
        Self::parse_chars(row, to_chars(line).as_slice())
    }

    /// Takes a line of the synced-line grammar apart.
    pub fn parse_chars(row: usize, line: &[char]) -> (found: Option<Self>)
        ensures
            match found {
                Some(s) => s.row == row && s.line@ == line@ && s.wf(),
                None => synced(line@) is None,
            },
    {
        proof {
            lemma_synced(line@);
            lemma_text_offset(line@);
            crate::text::lemma_body(line@);
            reveal_strlit("<!--gcal:");
        }
        match find_marker(line) {
            Some((at, id, suffix)) => match checkbox_text_offset(line) {
                Some(offset) => {
                    let before = slice_subrange(line, offset, at);
                    proof {
                        lemma_time_token_len(before@);
                    }
                    let (sort_start, len): (Option<u32>, usize) = match leading_time_token(
                        before,
                    ) {
                        Some((start, n)) => (Some(start), n),
                        None => (None, 0),
                    };
                    let token_span: Option<(usize, usize)> = if len > 0 {
                        Some((offset, offset + len))
                    } else {
                        None
                    };
                    let after = slice_subrange(before, len, before.len());
                    assert(after@ =~= before@.skip(len as int));
                    let text_start: usize = offset + len + lead_len(after);
                    let text_end: usize = text_start + trimmed(after).len();
                    let end: usize = body_end(line);
                    let marker_suffix: Option<Vec<char>> = match suffix {
                        Some(s) => Some(slice_to_chars(s)),
                        None => None,
                    };
                    Some(
                        SyncedLine {
                            row,
                            line: slice_to_chars(line),
                            id: from_chars(id),
                            sort_start,
                            token_span,
                            text_span: (text_start, text_end),
                            marker_span: (at, end),
                            marker_suffix,
                        },
                    )
                },
                None => None,
            },
            None => None,
        }
    }

    /// The marker to write for `kind`, or `None` when the line's marker says
    /// that already, or carries a suffix that is not known, which is left as
    /// the note has it.
    pub fn marker_update_for(&self, kind: EventKind) -> (found: Option<Vec<char>>)
        ensures
            match found {
                Some(m) => self.parts().new_marker(kind) == Some(m@),
                None => self.parts().new_marker(kind) is None,
            },
    {
        match (&self.marker_suffix, kind.marker_suffix()) {
            (Some(own_suffix), Some(wanted)) => {
                if same(own_suffix.as_slice(), to_chars(wanted).as_slice()) {
                    return None;
                }
            },
            (None, None) => {
                return None;
            },
            _ => {},
        }
        if let Some(own_suffix) = &self.marker_suffix {
            if EventKind::from_marker_suffix(own_suffix.as_slice()).is_none() {
                return None;
            }
        }
        let id = to_chars(self.id.as_str());
        Some(render_marker(id.as_slice(), kind))
    }

    /// The text region.
    pub fn text(&self) -> (text: &[char])
        requires
            self.wf(),
        ensures
            text@ == self.parts().words(),
    {
        proof {
            lemma_synced(self.line@);
        }
        slice_subrange(self.line.as_slice(), self.text_span.0, self.text_span.1)
    }

    /// The time token as written.
    pub fn token(&self) -> (token: Option<&[char]>)
        requires
            self.wf(),
        ensures
            match token {
                Some(t) => self.parts().token_text() == Some(t@),
                None => self.parts().token_text() is None,
            },
    {
        proof {
            lemma_synced(self.line@);
        }
        match self.token_span {
            Some((from, to)) => Some(slice_subrange(self.line.as_slice(), from, to)),
            None => None,
        }
    }

    /// All the text in front of the marker, a time token with it.
    pub fn whole(&self) -> (text: &[char])
        requires
            self.wf(),
        ensures
            text@ == self.parts().whole(),
    {
        proof {
            lemma_synced(self.line@);
        }
        let start: usize = match self.token_span {
            Some((from, _)) => from,
            None => self.text_span.0,
        };
        trimmed_end(slice_subrange(self.line.as_slice(), start, self.marker_span.0))
    }

    /// The inner and the trailing text of the cancelled form.
    pub fn cancelled_parts(&self) -> (found: Option<(&[char], &[char])>)
        requires
            self.wf(),
        ensures
            match found {
                Some((inner, trailing)) => cancelled(self.parts().words()) == Some(
                    (inner@, trailing@),
                ),
                None => cancelled(self.parts().words()) is None,
            },
    {
        split_mark(self.text())
    }

    /// Whether the text is the cancelled form.
    pub fn is_cancelled(&self) -> (yes: bool)
        requires
            self.wf(),
        ensures
            yes == (cancelled(self.parts().words()) is Some),
    {
        self.cancelled_parts().is_some()
    }

    /// The line with its whole text struck through as cancelled.
    pub fn cancelled_form(&self) -> (out: Vec<char>)
        requires
            self.wf(),
        ensures
            out@ == self.parts().cancelled_line(),
    {
        let mut text: Vec<char> = to_chars("~~");
        append(&mut text, self.text());
        append_str(&mut text, "~~ (cancelled)");
        self.with_text_region(self.token(), text.as_slice())
    }

    /// The line brought in step with `event`, or `None` when its title was
    /// rewritten. A line equal to the current one means nothing to do.
    pub fn updated_for(&self, event: &CalendarEvent) -> (found: Option<Vec<char>>)
        requires
            self.wf(),
        ensures
            match found {
                Some(line) => self.parts().update(event@) == Some(line@),
                None => self.parts().update(event@) is None,
            },
    {
        let expected: Option<Vec<char>> = match event.time {
            Some((start, end)) => Some(format_time_token(start, end)),
            None => None,
        };
        let marker = self.marker_update_for(event.kind);
        proof {
            lemma_synced(self.line@);
        }
        match aimed_text(self.token(), self.text(), self.whole(), event) {
            Some(text) => {
                let unmoved: bool = match (self.token(), &expected) {
                    (Some(token), Some(wanted)) => same(token, wanted.as_slice()) && same(
                        self.text(),
                        text.as_slice(),
                    ),
                    (_, None) => same(self.whole(), text.as_slice()),
                    _ => false,
                };
                if unmoved && marker.is_none() {
                    return Some(slice_to_chars(self.line.as_slice()));
                }
                // Checkbox, marker and what stands outside the text stay.
                Some(self.rebuilt(opt_slice(&expected), text.as_slice(), opt_slice(&marker)))
            },
            None => None,
        }
    }

    /// The line with the region between the checkbox and the marker replaced.
    pub fn with_text_region(&self, token: Option<&[char]>, text: &[char]) -> (out: Vec<char>)
        requires
            self.wf(),
        ensures
            out@ == self.parts().rebuild(
                match token {
                    Some(t) => Some(t@),
                    None => None,
                },
                text@,
                None,
            ),
    {
        self.rebuilt(token, text, None)
    }

    /// `with_text_region` plus an optional replacement marker; `None` keeps
    /// the line's own marker.
    pub fn rebuilt(&self, token: Option<&[char]>, text: &[char], marker: Option<&[char]>) -> (out:
        Vec<char>)
        requires
            self.wf(),
        ensures
            out@ == self.parts().rebuild(
                match token {
                    Some(t) => Some(t@),
                    None => None,
                },
                text@,
                match marker {
                    Some(m) => Some(m@),
                    None => None,
                },
            ),
    {
        proof {
            lemma_synced(self.line@);
        }
        let line = self.line.as_slice();
        let start: usize = match self.token_span {
            Some((from, _)) => from,
            None => self.text_span.0,
        };
        let mut out: Vec<char> = slice_to_chars(slice_subrange(line, 0, start));
        assert(out@ =~= self.line@.take(start as int));
        let ghost head = out@;
        if let Some(t) = token {
            append(&mut out, t);
            if text.len() > 0 {
                out.push(' ');
            }
        }
        append(&mut out, text);
        assert(out@ =~= head + content(
            match token {
                Some(t) => Some(t@),
                None => None,
            },
            text@,
        ));
        append(&mut out, slice_subrange(line, self.text_span.1, self.marker_span.0));
        match marker {
            Some(m) => append(&mut out, m),
            None => append(&mut out, slice_subrange(line, self.marker_span.0, self.marker_span.1)),
        }
        append(&mut out, slice_subrange(line, self.marker_span.1, line.len()));
        out
    }
}

/// The characters behind an optional vector.
fn opt_slice(v: &Option<Vec<char>>) -> (s: Option<&[char]>)
    ensures
        match (*v, s) {
            (Some(a), Some(b)) => a@ == b@,
            (None, None) => true,
            _ => false,
        },
{
    match v {
        Some(a) => Some(a.as_slice()),
        None => None,
    }
}

} // verus!
