//! The Day Planner's grammar: headings, the planner section of a note, clock
//! times, and the comment that trails a line.

use vstd::prelude::*;
use vstd::slice::slice_subrange;
use crate::format::{char_is_digit, is_digit, lowercase, lowered};
use crate::lines::texts;
use crate::text::{
    begins, char_is_white, ends, is_white, last_position, lead, lead_len, rfind, same, stands_at,
    to_chars, trim, trim_end, trimmed, trimmed_end,
};

verus! {

/// How many `#` a line begins with.
pub open spec fn hash_run(line: Seq<char>) -> nat
    decreases line.len(),
{
    if line.len() > 0 && line[0] == '#' {
        1 + hash_run(line.skip(1))
    } else {
        0
    }
}

/// A run of `#` that another character follows is the leading one.
pub proof fn lemma_hash_run_is(line: Seq<char>, k: int)
    requires
        0 <= k <= line.len(),
        forall|i: int| 0 <= i < k ==> line[i] == '#',
        k < line.len() ==> line[k] != '#',
    ensures
        hash_run(line) == k,
    decreases line.len(),
{
    if k > 0 {
        assert forall|i: int| 0 <= i < k - 1 implies line.skip(1)[i] == '#' by {
            assert(line[i + 1] == '#');
        }
        lemma_hash_run_is(line.skip(1), k - 1);
    }
}

/// The leading run of `#` is one, and stops at the first other character.
pub proof fn lemma_hash_run(line: Seq<char>)
    ensures
        hash_run(line) <= line.len(),
        forall|i: int| 0 <= i < hash_run(line) ==> line[i] == '#',
        hash_run(line) < line.len() ==> line[hash_run(line) as int] != '#',
    decreases line.len(),
{
    if line.len() > 0 && line[0] == '#' {
        let rest = line.skip(1);
        lemma_hash_run(rest);
        assert forall|i: int| 0 <= i < hash_run(line) implies line[i] == '#' by {
            if i > 0 {
                assert(line[i] == rest[i - 1]);
            }
        }
        if hash_run(line) < line.len() {
            assert(line[hash_run(line) as int] == rest[hash_run(rest) as int]);
        }
    }
}

/// The level and the text of a Markdown heading: one to six `#`, then white
/// space or the end of the line.
pub open spec fn heading(line: Seq<char>) -> Option<(nat, Seq<char>)> {
    let level = hash_run(line);
    if 1 <= level <= 6 && (level == line.len() || is_white(line[level as int])) {
        Some((level, trim(line.skip(level as int))))
    } else {
        None
    }
}

/// The level and the text of a heading line.
pub fn heading_level_and_text(line: &[char]) -> (found: Option<(usize, &[char])>)
    ensures
        match found {
            Some((level, text)) => heading(line@) == Some((level as nat, text@)) && 1 <= level <= 6,
            None => heading(line@) is None,
        },
{
    let mut level: usize = 0;
    while level < line.len() && line[level] == '#'
        invariant
            level <= line@.len(),
            forall|i: int| 0 <= i < level ==> line@[i] == '#',
        decreases line@.len() - level,
    {
        level = level + 1;
    }
    proof {
        lemma_hash_run_is(line@, level as int);
    }
    if level < 1 || level > 6 {
        return None;
    }
    if level < line.len() && !char_is_white(line[level]) {
        return None;
    }
    Some((level, trimmed(slice_subrange(line, level, line.len()))))
}

/// The first row of `from..to` whose line satisfies `pred`; `to` where none
/// does.
pub open spec fn first_row(
    lines: Seq<Seq<char>>,
    pred: spec_fn(Seq<char>) -> bool,
    from: int,
    to: int,
) -> int
    decreases to - from,
{
    if from >= to {
        to
    } else if pred(lines[from]) {
        from
    } else {
        first_row(lines, pred, from + 1, to)
    }
}

/// What `first_row` returns.
pub proof fn lemma_first_row(
    lines: Seq<Seq<char>>,
    pred: spec_fn(Seq<char>) -> bool,
    from: int,
    to: int,
)
    requires
        from <= to,
    ensures
        from <= first_row(lines, pred, from, to) <= to,
        first_row(lines, pred, from, to) < to ==> pred(lines[first_row(lines, pred, from, to)]),
        forall|r: int| from <= r < first_row(lines, pred, from, to) ==> !pred(#[trigger] lines[r]),
    decreases to - from,
{
    if from < to && !pred(lines[from]) {
        lemma_first_row(lines, pred, from + 1, to);
    }
}

/// The row that `first_row` returns is the only one of its kind.
pub proof fn lemma_first_row_is(
    lines: Seq<Seq<char>>,
    pred: spec_fn(Seq<char>) -> bool,
    from: int,
    to: int,
    row: int,
)
    requires
        from <= row <= to,
        row < to ==> pred(lines[row]),
        forall|r: int| from <= r < row ==> !pred(#[trigger] lines[r]),
    ensures
        first_row(lines, pred, from, to) == row,
    decreases to - from,
{
    lemma_first_row(lines, pred, from, to);
    let n = first_row(lines, pred, from, to);
    if n < row {
        assert(!pred(lines[n]));
    } else if row < n {
        assert(!pred(lines[row]));
    }
}

/// Headings with the given text, letter case aside.
pub open spec fn titled(text: Seq<char>) -> spec_fn(Seq<char>) -> bool {
    |line: Seq<char>|
        heading(line) is Some && lowercase((heading(line)->0).1) == lowercase(trim(text))
}

/// Headings at `level` or above it.
pub open spec fn at_or_above(level: nat) -> spec_fn(Seq<char>) -> bool {
    |line: Seq<char>| heading(line) is Some && (heading(line)->0).0 <= level
}

/// Headings with the given text, letter case aside, at exactly `level`.
pub open spec fn titled_at(text: Seq<char>, level: nat) -> spec_fn(Seq<char>) -> bool {
    |line: Seq<char>|
        heading(line) is Some && (heading(line)->0).0 == level && lowercase((heading(line)->0).1)
            == lowercase(trim(text))
}

/// Rows `start..end` of a note, below a heading of the given level.
pub struct Section {
    pub start: int,
    pub end: int,
    pub level: nat,
}

/// The planner section: the rows below the first heading with the planner's
/// text, up to the next heading at its level or above.
pub open spec fn planner(lines: Seq<Seq<char>>, text: Seq<char>) -> Option<Section> {
    let row = first_row(lines, titled(text), 0, lines.len() as int);
    if row < lines.len() {
        let level = (heading(lines[row])->0).0;
        Some(
            Section {
                start: row + 1,
                end: first_row(lines, at_or_above(level), row + 1, lines.len() as int),
                level,
            },
        )
    } else {
        None
    }
}

/// The first row of `from..to` that is a heading at `level` or above.
pub fn next_heading(lines: &Vec<Vec<char>>, level: usize, from: usize, to: usize) -> (row: usize)
    requires
        from <= to <= lines@.len(),
    ensures
        row == first_row(texts(lines@), at_or_above(level as nat), from as int, to as int),
        from <= row <= to,
{
    let ghost view = texts(lines@);
    let mut row: usize = from;
    while row < to
        invariant
            from <= row <= to <= lines@.len(),
            view == texts(lines@),
            first_row(view, at_or_above(level as nat), from as int, to as int) == first_row(
                view,
                at_or_above(level as nat),
                row as int,
                to as int,
            ),
        decreases to - row,
    {
        assert(view[row as int] == lines@[row as int]@);
        if let Some((found, _)) = heading_level_and_text(lines[row].as_slice()) {
            if found <= level {
                return row;
            }
        }
        row = row + 1;
    }
    row
}

/// The rows and the level of the planner section.
pub fn planner_section(lines: &Vec<Vec<char>>, heading_text: &[char]) -> (found: Option<
    ((usize, usize), usize),
>)
    ensures
        match found {
            Some(((start, end), level)) => planner(texts(lines@), heading_text@) == Some(
                Section { start: start as int, end: end as int, level: level as nat },
            ) && 1 <= start <= end <= lines@.len() && 1 <= level <= 6,
            None => planner(texts(lines@), heading_text@) is None,
        },
{
    let wanted = lowered(trimmed(heading_text));
    let ghost view = texts(lines@);
    let ghost pred = titled(heading_text@);
    let mut row: usize = 0;
    while row < lines.len()
        invariant
            row <= lines@.len(),
            view == texts(lines@),
            pred == titled(heading_text@),
            wanted@ == lowercase(trim(heading_text@)),
            first_row(view, pred, 0, lines@.len() as int) == first_row(
                view,
                pred,
                row as int,
                lines@.len() as int,
            ),
        decreases lines@.len() - row,
    {
        assert(view[row as int] == lines@[row as int]@);
        if let Some((level, text)) = heading_level_and_text(lines[row].as_slice()) {
            let lower = lowered(text);
            if same(lower.as_slice(), wanted.as_slice()) {
                let end: usize = next_heading(lines, level, row + 1, lines.len());
                return Some(((row + 1, end), level));
            }
        }
        row = row + 1;
    }
    None
}

/// A clock time at the start of a text, as minutes since midnight and its
/// length: one or two digits, a colon, two digits, the minutes below sixty and
/// the time at most `limit`.
pub open spec fn clock(s: Seq<char>, limit: int) -> Option<(int, int)> {
    let hours: int = if s.len() > 1 && is_digit(s[0]) && s[1] == ':' {
        1
    } else if s.len() > 2 && is_digit(s[0]) && is_digit(s[1]) && s[2] == ':' {
        2
    } else {
        0
    };
    if hours > 0 && s.len() >= hours + 3 && is_digit(s[hours + 1]) && is_digit(s[hours + 2]) {
        let h = if hours == 1 {
            value(s[0])
        } else {
            value(s[0]) * 10 + value(s[1])
        };
        let m = value(s[hours + 1]) * 10 + value(s[hours + 2]);
        if m < 60 && h * 60 + m <= limit {
            Some((h * 60 + m, hours + 3))
        } else {
            None
        }
    } else {
        None
    }
}

/// The value of a decimal digit.
pub open spec fn value(c: char) -> int {
    c as int - 48
}

/// The value of a decimal digit.
fn digit_value(c: char) -> (n: u32)
    requires
        is_digit(c),
    ensures
        n == value(c),
        n < 10,
{
    c as u32 - 48
}

/// A clock time at the start of a text.
fn read_clock(s: &[char], limit: u32) -> (found: Option<(u32, usize)>)
    ensures
        match found {
            Some((minutes, len)) => clock(s@, limit as int) == Some((minutes as int, len as int))
                && minutes <= limit && len <= s@.len(),
            None => clock(s@, limit as int) is None,
        },
{
    let hours: usize = if s.len() > 1 && char_is_digit(s[0]) && s[1] == ':' {
        1
    } else if s.len() > 2 && char_is_digit(s[0]) && char_is_digit(s[1]) && s[2] == ':' {
        2
    } else {
        0
    };
    if hours == 0 || s.len() < hours + 3 || !char_is_digit(s[hours + 1]) || !char_is_digit(
        s[hours + 2],
    ) {
        return None;
    }
    let h: u32 = if hours == 1 {
        digit_value(s[0])
    } else {
        digit_value(s[0]) * 10 + digit_value(s[1])
    };
    let m: u32 = digit_value(s[hours + 1]) * 10 + digit_value(s[hours + 2]);
    if m < 60 && h * 60 + m <= limit {
        Some((h * 60 + m, hours + 3))
    } else {
        None
    }
}

/// The clock time that a task's text begins with, and the text behind it.
pub open spec fn time_prefix(text: Seq<char>) -> Option<(int, Seq<char>)> {
    match clock(text, 1439) {
        Some((start, len)) => Some((start, text.skip(len))),
        None => None,
    }
}

/// Whether `c` separates the two times of a range: a hyphen, an en dash or an
/// em dash.
pub open spec fn is_dash(c: char) -> bool {
    c == '-' || c == '\u{2013}' || c == '\u{2014}'
}

/// The second time of a range, behind a dash with white space around it or
/// not, and the text behind it. Midnight at the end of the day is one.
pub open spec fn range_end(text: Seq<char>) -> Option<(int, Seq<char>)> {
    let at = lead(text) as int;
    if at < text.len() && is_dash(text[at]) {
        let behind = text.skip(at + 1);
        let rest = behind.skip(lead(behind) as int);
        match clock(rest, 1440) {
            Some((end, len)) => Some((end, rest.skip(len))),
            None => None,
        }
    } else {
        None
    }
}

/// The clock time that a task's text begins with, and the text behind it.
pub fn parse_time_prefix(text: &[char]) -> (found: Option<(u32, &[char])>)
    ensures
        match found {
            Some((start, rest)) => time_prefix(text@) == Some((start as int, rest@)) && start < 1440
                && rest@.len() <= text@.len(),
            None => time_prefix(text@) is None,
        },
{
    match read_clock(text, 1439) {
        Some((start, len)) => Some((start, slice_subrange(text, len, text.len()))),
        None => None,
    }
}

/// The second time of a range, and the text behind it.
pub fn parse_range_end(text: &[char]) -> (found: Option<(u32, &[char])>)
    ensures
        match found {
            Some((end, rest)) => range_end(text@) == Some((end as int, rest@)) && end <= 1440
                && rest@.len() <= text@.len(),
            None => range_end(text@) is None,
        },
{
    let at: usize = lead_len(text);
    if at >= text.len() {
        return None;
    }
    let c: char = text[at];
    if c != '-' && c != '\u{2013}' && c != '\u{2014}' {
        return None;
    }
    let behind = slice_subrange(text, at + 1, text.len());
    let rest = slice_subrange(behind, lead_len(behind), behind.len());
    match read_clock(rest, 1440) {
        Some((end, len)) => Some((end, slice_subrange(rest, len, rest.len()))),
        None => None,
    }
}

/// The text without an HTML comment that ends it and the white space before
/// that.
pub open spec fn without_comment(text: Seq<char>) -> Seq<char> {
    let t = trim_end(text);
    match rfind(t, "<!--"@) {
        Some(at) => if ends(t, "-->"@) && t.len() >= at + 7 && crate::text::find_from(
            t,
            "-->"@,
            at + 4,
        ) == Some(t.len() - 3) {
            trim_end(t.take(at))
        } else {
            text
        },
        None => text,
    }
}

/// The text without an HTML comment that ends it.
pub fn strip_trailing_comment(text: &[char]) -> (visible: &[char])
    ensures
        visible@ == without_comment(text@),
        visible@ == text@.take(visible@.len() as int),
        visible@.len() <= text@.len(),
{
    proof {
        reveal_strlit("<!--");
        reveal_strlit("-->");
        crate::text::lemma_body(text@);
        assert(text@.take(text@.len() as int) =~= text@);
    }
    let t = trimmed_end(text);
    let open = to_chars("<!--");
    let close = to_chars("-->");
    if let Some(at) = last_position(t, open.as_slice()) {
        if t.len() - at >= 7 && stands_at(t, close.as_slice(), t.len() - 3) {
            if let Some(end) = crate::text::position_from(t, close.as_slice(), at + 4) {
                if end == t.len() - 3 {
                    let visible = trimmed_end(slice_subrange(t, 0, at));
                    proof {
                        crate::text::lemma_body(t@.take(at as int));
                        assert(visible@ =~= text@.take(visible@.len() as int));
                    }
                    return visible;
                }
            }
        }
    }
    text
}

} // verus!
