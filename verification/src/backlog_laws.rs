//! What holds of the backlog panel: what its columns show and in which order,
//! where the cursor goes, and what an edit keeps.

use vstd::prelude::*;
use vstd::utf8::encode_utf8;
use crate::backlog_panel::{
    background, clamped, column_from, committed, cursor_column, first_column, later_day, links_of,
    next_row, open_places, other_column, previous_row, restored, reversed_places, row, shown_text,
    span_of, task_under, visible, Backlog, BacklogTask, Committed, InlineSpan, Place, Placed,
    RowBackground, SectionKind, Target, TaskSelection,
};
use crate::day_plan::without_comment;
use crate::moments::Date;
use crate::sort::{put, sorted, Ranked};
use crate::text::{find_from, is_white, lemma_body_is, lemma_find_from, matches_at, trim, trim_end};

verus! {

/// A date as a number that grows with time.
pub open spec fn day_number(date: Date) -> int {
    10000 * date.year + 100 * date.month + date.day
}

/// Whether a date's month and day are ones that a calendar has.
pub open spec fn on_calendar(date: Date) -> bool {
    1 <= date.month <= 12 && 1 <= date.day <= 31
}

/// Whether places stand newest first: of two days the later one in front, a
/// task without a day behind those with one, and of tasks that tell no day
/// apart the one that stands further down in the file in front.
spec fn newest_first(s: Seq<Place>) -> bool {
    forall|i: int, j: int|
        0 <= i < j < s.len() ==> {
            &&& !later_day((#[trigger] s[j]).date, (#[trigger] s[i]).date)
            &&& !later_day(s[i].date, s[j].date) ==> s[i].at > s[j].at
            &&& s[i].at != s[j].at
        }
}

proof fn lemma_put_newest(s: Seq<Place>, x: Place)
    requires
        newest_first(s),
        forall|i: int| 0 <= i < s.len() ==> (#[trigger] s[i]).at > x.at,
    ensures
        newest_first(put::<Placed>(s, x)),
        forall|y: Place| #[trigger] put::<Placed>(s, x).contains(y) == (s.contains(y) || y == x),
        put::<Placed>(s, x).len() == s.len() + 1,
    decreases s.len(),
{
    let out = put::<Placed>(s, x);
    if s.len() > 0 && Placed::before(x, s.last()) {
        let rest = s.drop_last();
        lemma_put_newest(rest, x);
        let p = put::<Placed>(rest, x);
        assert forall|i: int, j: int| 0 <= i < j < out.len() implies {
            &&& !later_day((#[trigger] out[j]).date, (#[trigger] out[i]).date)
            &&& !later_day(out[i].date, out[j].date) ==> out[i].at > out[j].at
            &&& out[i].at != out[j].at
        } by {
            if j < p.len() {
                assert(out[i] == p[i] && out[j] == p[j]);
            } else {
                assert(out[i] == p[i] && out[j] == s.last());
                assert(p.contains(p[i]));
                if p[i] != x {
                    let k = choose|k: int| 0 <= k < rest.len() && rest[k] == p[i];
                    assert(s[k] == p[i] && s[s.len() - 1] == s.last());
                }
            }
        }
        assert forall|y: Place| #[trigger] out.contains(y) == (s.contains(y) || y == x) by {
            if out.contains(y) {
                let k = choose|k: int| 0 <= k < out.len() && out[k] == y;
                if k < p.len() {
                    assert(p[k] == y);
                    assert(p.contains(y));
                    if rest.contains(y) {
                        let m = choose|m: int| 0 <= m < rest.len() && rest[m] == y;
                        assert(s[m] == y);
                    }
                } else {
                    assert(s[s.len() - 1] == y);
                }
            }
            if s.contains(y) {
                let k = choose|k: int| 0 <= k < s.len() && s[k] == y;
                if k < rest.len() {
                    assert(rest[k] == y);
                    assert(p.contains(y));
                    let m = choose|m: int| 0 <= m < p.len() && p[m] == y;
                    assert(out[m] == y);
                } else {
                    assert(out[out.len() - 1] == y);
                }
            }
            if y == x {
                assert(p.contains(y));
                let m = choose|m: int| 0 <= m < p.len() && p[m] == y;
                assert(out[m] == y);
            }
        }
    } else {
        assert forall|i: int, j: int| 0 <= i < j < out.len() implies {
            &&& !later_day((#[trigger] out[j]).date, (#[trigger] out[i]).date)
            &&& !later_day(out[i].date, out[j].date) ==> out[i].at > out[j].at
            &&& out[i].at != out[j].at
        } by {
            assert(out[i] == s[i]);
            if j < s.len() {
                assert(out[j] == s[j]);
            } else {
                let last = s.len() - 1;
                if i < last {
                    assert(!later_day(s[last].date, s[i].date));
                }
            }
        }
        assert forall|y: Place| #[trigger] out.contains(y) == (s.contains(y) || y == x) by {
            if out.contains(y) {
                let k = choose|k: int| 0 <= k < out.len() && out[k] == y;
                if k < s.len() {
                    assert(s[k] == y);
                }
            }
            if s.contains(y) {
                let k = choose|k: int| 0 <= k < s.len() && s[k] == y;
                assert(out[k] == y);
            }
            assert(out[out.len() - 1] == x);
        }
    }
}

proof fn lemma_sorted_newest(s: Seq<Place>)
    requires
        forall|i: int, j: int| 0 <= i < j < s.len() ==> (#[trigger] s[i]).at > (#[trigger] s[j]).at,
    ensures
        newest_first(sorted::<Placed>(s)),
        forall|y: Place| #[trigger] sorted::<Placed>(s).contains(y) == s.contains(y),
        sorted::<Placed>(s).len() == s.len(),
    decreases s.len(),
{
    if s.len() > 0 {
        let rest = s.drop_last();
        assert forall|i: int, j: int| 0 <= i < j < rest.len() implies (#[trigger] rest[i]).at > (
        #[trigger] rest[j]).at by {
            assert(s[i].at > s[j].at);
        }
        lemma_sorted_newest(rest);
        let done = sorted::<Placed>(rest);
        assert forall|i: int| 0 <= i < done.len() implies (#[trigger] done[i]).at > s.last().at by {
            assert(done.contains(done[i]));
            let k = choose|k: int| 0 <= k < rest.len() && rest[k] == done[i];
            assert(s[k].at > s[s.len() - 1].at);
        }
        lemma_put_newest(done, s.last());
        assert forall|y: Place| #[trigger] sorted::<Placed>(s).contains(y) == s.contains(y) by {
            if s.contains(y) {
                let k = choose|k: int| 0 <= k < s.len() && s[k] == y;
                if k < rest.len() {
                    assert(rest[k] == y);
                }
            }
            if rest.contains(y) {
                let k = choose|k: int| 0 <= k < rest.len() && rest[k] == y;
                assert(s[k] == y);
            }
            assert(s[s.len() - 1] == s.last());
        }
    }
}

/// The completed column is in the order of time, newest first: no task shown
/// above another was completed on an earlier day, tasks without a day come last,
/// and of tasks of one day the one further down in the file comes first.
#[verifier::spinoff_prover]
#[verifier::rlimit(40)]
pub proof fn completed_goes_back_in_time(backlog: Backlog, i: int, j: int)
    requires
        0 <= i < j < visible(backlog, SectionKind::Completed).len(),
    ensures
        ({
            let shown = visible(backlog, SectionKind::Completed);
            let a = backlog.completed@[shown[i]].completed_on;
            let b = backlog.completed@[shown[j]].completed_on;
            &&& a is None ==> b is None
            &&& a is Some && b is Some && on_calendar(a->0) && on_calendar(b->0) ==> day_number(
                a->0,
            ) >= day_number(b->0)
            &&& a == b ==> shown[i] > shown[j]
        }),
{
    let all = reversed_places(backlog.completed@);
    lemma_sorted_newest(all);
    let s = sorted::<Placed>(all);
    let shown = visible(backlog, SectionKind::Completed);
    assert(shown[i] == s[i].at && shown[j] == s[j].at);
    assert(s.contains(s[i]) && s.contains(s[j]));
    let p = choose|p: int| 0 <= p < all.len() && all[p] == s[i];
    let q = choose|q: int| 0 <= q < all.len() && all[q] == s[j];
    assert(backlog.completed@[shown[i]].completed_on == s[i].date);
    assert(backlog.completed@[shown[j]].completed_on == s[j].date);
    assert(!later_day(s[j].date, s[i].date));
}

proof fn lemma_open(tasks: Seq<BacklogTask>)
    ensures
        forall|i: int, j: int|
            0 <= i < j < open_places(tasks).len() ==> #[trigger] open_places(tasks)[i]
                < #[trigger] open_places(tasks)[j],
        forall|p: int| #[trigger]
            open_places(tasks).contains(p) == (0 <= p < tasks.len() && !tasks[p].checked),
    decreases tasks.len(),
{
    if tasks.len() > 0 {
        let rest = tasks.drop_last();
        lemma_open(rest);
        let above = open_places(rest);
        let all = open_places(tasks);
        let last = tasks.len() - 1;
        assert forall|i: int| 0 <= i < above.len() implies #[trigger] above[i] < last by {
            assert(above.contains(above[i]));
        }
        assert forall|p: int| #[trigger]
            all.contains(p) == (0 <= p < tasks.len() && !tasks[p].checked) by {
            if all.contains(p) {
                let k = choose|k: int| 0 <= k < all.len() && all[k] == p;
                if k < above.len() {
                    assert(above[k] == p);
                    assert(above.contains(p));
                    assert(rest[p] == tasks[p]);
                }
            }
            if 0 <= p < tasks.len() && !tasks[p].checked {
                if p < last {
                    assert(rest[p] == tasks[p]);
                    assert(above.contains(p));
                    let k = choose|k: int| 0 <= k < above.len() && above[k] == p;
                    assert(all[k] == p);
                } else {
                    assert(all[above.len() as int] == p);
                }
            }
        }
        assert forall|i: int, j: int| 0 <= i < j < all.len() implies #[trigger] all[i]
            < #[trigger] all[j] by {
            assert(all[i] == above[i]);
            if j < above.len() {
                assert(all[j] == above[j]);
            }
        }
    }
}

/// A column shows the tasks that it is for, each once: the first two the open
/// ones, in the file's order, and the last all of its own.
pub proof fn columns_show_their_tasks(backlog: Backlog, section: SectionKind)
    ensures
        ({
            let shown = visible(backlog, section);
            let tasks = backlog.tasks(section);
            &&& shown.no_duplicates()
            &&& forall|p: int| #[trigger]
                shown.contains(p) == (0 <= p < tasks.len() && (section == SectionKind::Completed
                    || !tasks[p].checked))
            &&& section != SectionKind::Completed ==> forall|i: int, j: int|
                0 <= i < j < shown.len() ==> #[trigger] shown[i] < #[trigger] shown[j]
        }),
{
    let shown = visible(backlog, section);
    let tasks = backlog.tasks(section);
    if section == SectionKind::Completed {
        let all = reversed_places(tasks);
        lemma_sorted_newest(all);
        let s = sorted::<Placed>(all);
        assert forall|p: int| #[trigger] shown.contains(p) == (0 <= p < tasks.len()) by {
            if shown.contains(p) {
                let k = choose|k: int| 0 <= k < shown.len() && shown[k] == p;
                assert(s.contains(s[k]));
                let m = choose|m: int| 0 <= m < all.len() && all[m] == s[k];
            }
            if 0 <= p < tasks.len() {
                let m = tasks.len() - 1 - p;
                assert(all[m].at == p);
                assert(all.contains(all[m]));
                assert(s.contains(all[m]));
                let k = choose|k: int| 0 <= k < s.len() && s[k] == all[m];
                assert(shown[k] == p);
            }
        }
        assert forall|i: int, j: int| 0 <= i < shown.len() && 0 <= j < shown.len() && i != j implies
            shown[i] != shown[j] by {
            if i < j {
                assert(s[i].at != s[j].at);
            } else {
                assert(s[j].at != s[i].at);
            }
        }
    } else {
        lemma_open(tasks);
        assert forall|i: int, j: int| 0 <= i < shown.len() && 0 <= j < shown.len() && i != j implies
            shown[i] != shown[j] by {
            if i < j {
                assert(shown[i] < shown[j]);
            } else {
                assert(shown[j] < shown[i]);
            }
        }
    }
}

/// The columns from left to right.
pub open spec fn rank(section: SectionKind) -> int {
    match section {
        SectionKind::Soon => 0,
        SectionKind::Someday => 1,
        SectionKind::Completed => 2,
    }
}

/// Whether a column shows anything.
pub open spec fn has_rows(backlog: Backlog, section: SectionKind) -> bool {
    visible(backlog, section).len() > 0
}

/// A motion to another column goes to the nearest one on that side that shows
/// anything, and stays where there is none; without a cursor it starts in the
/// leftmost that does.
#[verifier::spinoff_prover]
#[verifier::rlimit(40)]
pub proof fn the_nearest_column_is_next(backlog: Backlog, section: SectionKind, other: SectionKind)
    ensures
        match first_column(backlog) {
            Some(c) => has_rows(backlog, c) && (has_rows(backlog, other) ==> rank(c) <= rank(other)),
            None => !has_rows(backlog, other),
        },
        match column_from(backlog, section, true) {
            Some(c) => {
                &&& has_rows(backlog, c)
                &&& rank(c) > rank(section)
                &&& has_rows(backlog, other) && rank(other) > rank(section) ==> rank(c) <= rank(
                    other,
                )
            },
            None => !(has_rows(backlog, other) && rank(other) > rank(section)),
        },
        match column_from(backlog, section, false) {
            Some(c) => {
                &&& has_rows(backlog, c)
                &&& rank(c) < rank(section)
                &&& has_rows(backlog, other) && rank(other) < rank(section) ==> rank(c) >= rank(
                    other,
                )
            },
            None => !(has_rows(backlog, other) && rank(other) < rank(section)),
        },
{
}

/// The cursor's row is the one that it was put on, or the last that its column
/// still shows; a column that shows nothing has no cursor.
pub proof fn the_cursor_stays_in_its_column(backlog: Backlog, s: TaskSelection)
    requires
        visible(backlog, s.section).len() <= usize::MAX,
    ensures
        clamped(backlog, Some(s)) is Some == has_rows(backlog, s.section),
        clamped(backlog, Some(s)) matches Some(c) ==> {
            &&& c.section == s.section
            &&& c.index < visible(backlog, s.section).len()
            &&& c.index == s.index || (c.index + 1 == visible(backlog, s.section).len() && s.index
                > c.index)
        },
        clamped(backlog, None) is None,
{
}

/// Going to the next row and back ends where it began, at every row but the
/// last, from which there is no next; the rows of a column are passed one by
/// one, and a motion never leaves the column.
pub proof fn rows_are_passed_one_by_one(backlog: Backlog, s: TaskSelection)
    requires
        s.index < visible(backlog, s.section).len() <= usize::MAX,
    ensures
        ({
            let n = visible(backlog, s.section).len();
            let down = next_row(backlog, Some(s));
            let up = previous_row(backlog, Some(s));
            &&& down is Some && (down->0).section == s.section
            &&& up is Some && (up->0).section == s.section
            &&& s.index + 1 < n ==> (down->0).index == s.index + 1 && previous_row(backlog, down)
                == Some(s)
            &&& s.index + 1 == n ==> down == Some(s)
            &&& s.index > 0 ==> (up->0).index + 1 == s.index && next_row(backlog, up) == Some(s)
            &&& s.index == 0 ==> up == Some(s)
        }),
{
}

/// Going to another column keeps the row, as far as that column has one; with
/// none to go to the cursor stays. Without a cursor every motion lands in the
/// first column that shows anything: on its first row, or on its last going up.
pub proof fn columns_keep_the_row(backlog: Backlog, s: TaskSelection, forward: bool)
    requires
        s.index < visible(backlog, s.section).len(),
        forall|c: SectionKind| #[trigger] visible(backlog, c).len() <= usize::MAX,
    ensures
        match other_column(backlog, Some(s), forward) {
            Some(t) => match column_from(backlog, s.section, forward) {
                Some(c) => {
                    &&& t.section == c
                    &&& t.index <= s.index
                    &&& t.index < visible(backlog, c).len()
                    &&& t.index == s.index || t.index + 1 == visible(backlog, c).len()
                },
                None => t == s,
            },
            None => false,
        },
        first_column(backlog) matches Some(c) ==> {
            &&& next_row(backlog, None) == row(c, 0)
            &&& previous_row(backlog, None) == row(c, visible(backlog, c).len() - 1)
            &&& other_column(backlog, None, forward) == row(c, 0)
            &&& cursor_column(backlog, None) == Some(c)
        },
        cursor_column(backlog, Some(s)) == Some(s.section),
{
    let c = column_from(backlog, s.section, forward);
    if c is Some {
        assert(visible(backlog, c->0).len() <= usize::MAX);
    }
}

/// The task under the cursor is the one that its row shows.
pub proof fn the_cursor_is_on_a_shown_task(backlog: Backlog, s: TaskSelection)
    requires
        s.index < visible(backlog, s.section).len(),
    ensures
        task_under(backlog, Some(s)) matches Some(found) && found.0 == s.section && exists|p: int|
            #![trigger backlog.tasks(s.section)[p]]
            0 <= p < backlog.tasks(s.section).len() && visible(backlog, s.section)[s.index as int]
                == p && found.1 == backlog.tasks(s.section)[p] && (s.section
                == SectionKind::Completed || !found.1.checked),
{
    columns_show_their_tasks(backlog, s.section);
    let p = visible(backlog, s.section)[s.index as int];
    assert(visible(backlog, s.section).contains(p));
    let t = backlog.tasks(s.section)[p];
}

/// A text that neither begins nor ends with white space, with a comment behind
/// it, is shown without the comment.
#[verifier::spinoff_prover]
#[verifier::rlimit(40)]
pub proof fn trailing_comments_are_hidden(text: Seq<char>, comment: Seq<char>)
    requires
        text.len() > 0,
        !is_white(text.last()),
        forall|i: int| 0 <= i < comment.len() ==> #[trigger] comment[i] != '<' && comment[i] != '>',
    ensures
        without_comment(text + " <!--"@ + comment + "-->"@) == text,
{
    reveal_strlit(" <!--");
    reveal_strlit("<!--");
    reveal_strlit("-->");
    let all = text + " <!--"@ + comment + "-->"@;
    let n = text.len() as int;
    let at = n + 1;
    assert(all.last() == '>');
    lemma_body_is(all, all.len() as int);
    assert(trim_end(all) =~= all);
    assert(all.subrange(at, at + 4) =~= "<!--"@);
    assert forall|j: int| at < j implies !matches_at(all, "<!--"@, j) by {
        if matches_at(all, "<!--"@, j) {
            assert(all.subrange(j, j + 4)[0] == all[j]);
            if at + 4 <= j < at + 4 + comment.len() {
                assert(all[j] == comment[j - at - 4]);
            }
        }
    }
    crate::text::lemma_rfind_is(all, "<!--"@, at);
    let end = all.len() - 3;
    assert(all.subrange(end, end + 3) =~= "-->"@);
    lemma_find_from(all, "-->"@, at + 4);
    let found = find_from(all, "-->"@, at + 4);
    if found is None {
        assert(!matches_at(all, "-->"@, end));
    } else if found->0 < end {
        let k = found->0;
        assert(all.subrange(k, k + 3)[2] == all[k + 2]);
        if k + 2 < end {
            assert(all[k + 2] == comment[k + 2 - at - 4]);
        }
    } else if end < found->0 {
        assert(!matches_at(all, "-->"@, end));
    }
    let front = all.take(at);
    assert(front =~= text + seq![' ']);
    assert(is_white(' '));
    assert(front[n - 1] == text.last());
    assert forall|i: int| n <= i < front.len() implies is_white(#[trigger] front[i]) by {}
    lemma_body_is(front, n);
    assert(front.take(n) =~= text);
    assert(matches_at(all, "-->"@, end));
    assert(all.skip(all.len() - 3) =~= all.subrange(end, end + 3));
}

/// A renamed task shows the new text, and keeps the comment that the old one
/// ended with: both are in the line that is written, and nothing else.
#[verifier::spinoff_prover]
#[verifier::rlimit(40)]
pub proof fn renames_change_the_shown_text_only(
    old_text: Seq<char>,
    comment: Seq<char>,
    new_text: Seq<char>,
)
    requires
        old_text.len() > 0,
        !is_white(old_text.last()),
        new_text.len() > 0,
        !is_white(new_text.last()),
        forall|i: int| 0 <= i < comment.len() ==> #[trigger] comment[i] != '<' && comment[i] != '>',
    ensures
        restored(old_text + " <!--"@ + comment + "-->"@, new_text) == new_text + " <!--"@ + comment
            + "-->"@,
        without_comment(
            restored(old_text + " <!--"@ + comment + "-->"@, new_text),
        ) == new_text,
{
    trailing_comments_are_hidden(old_text, comment);
    trailing_comments_are_hidden(new_text, comment);
    reveal_strlit(" <!--");
    reveal_strlit("-->");
    let original = old_text + " <!--"@ + comment + "-->"@;
    let rest = original.skip(old_text.len() as int);
    assert(rest =~= " <!--"@ + comment + "-->"@);
    let kept = rest.skip(1);
    assert(is_white(' '));
    assert(rest[0] == ' ');
    assert(rest[1] == '<');
    crate::text::lemma_lead_is(rest, 1);
    assert(kept.last() == '>');
    lemma_body_is(kept, kept.len() as int);
    assert(kept.take(kept.len() as int) =~= kept);
    assert(trim(rest) == kept);
    assert(new_text + seq![' '] + kept =~= new_text + " <!--"@ + comment + "-->"@);
}

/// What an edit comes to: a blank text changes nothing, nor does the text that
/// was shown; any other is what the user typed, without the white space around
/// it.
pub proof fn edits_are_what_was_typed(
    section: SectionKind,
    line: u32,
    original: Seq<char>,
    typed: Seq<char>,
)
    ensures
        trim(typed).len() == 0 ==> {
            &&& committed(Target::Existing(section, line, original), typed, true)
                == Committed::Nothing
            &&& committed(Target::New(section), typed, true) == Committed::Nothing
        },
        trim(typed).len() > 0 ==> {
            &&& committed(Target::New(section), typed, true) == Committed::Append(
                section,
                trim(typed),
            )
            &&& committed(Target::New(section), typed, false) == Committed::Append(
                section,
                trim(typed),
            )
            &&& trim(typed) != without_comment(original) ==> committed(
                Target::Existing(section, line, original),
                typed,
                false,
            ) == Committed::NotOpen && (committed(
                Target::Existing(section, line, original),
                typed,
                true,
            ) matches Committed::Rename(s, l, o, t) && s == section && l == line && o == original
                && crate::text::begins(t, trim(typed)))
        },
        committed(Target::Existing(section, line, original), without_comment(original), true)
            == Committed::Nothing || trim(without_comment(original)) != without_comment(original),
{
    let t = restored(original, trim(typed));
    assert(t.subrange(0, trim(typed).len() as int) =~= trim(typed));
}

/// The pulse is seen on the row that was copied, wherever the cursor is; of the
/// other rows the cursor's alone is marked.
pub proof fn one_row_is_marked(
    backlog: Backlog,
    selected: Option<TaskSelection>,
    flash: Option<TaskSelection>,
    at: TaskSelection,
    other: TaskSelection,
)
    ensures
        (background(backlog, selected, flash, at) == RowBackground::Flash) == (flash == Some(at)),
        background(backlog, selected, flash, at) == RowBackground::Selected ==> clamped(
            backlog,
            selected,
        ) == Some(at),
        background(backlog, selected, None, at) == RowBackground::Selected && background(
            backlog,
            selected,
            None,
            other,
        ) == RowBackground::Selected ==> at == other,
        clamped(backlog, selected) == Some(at) ==> background(backlog, selected, flash, at)
            != RowBackground::Plain,
{
}

/// Each link covers its own text in what is shown, and leads to its own
/// address; every link is there, in order, and nothing else is one.
#[verifier::spinoff_prover]
#[verifier::rlimit(40)]
pub proof fn links_cover_their_text(spans: Seq<InlineSpan>, k: int)
    requires
        0 <= k < spans.len(),
    ensures
        span_of(spans[k]).1 matches Some(url) ==> exists|i: int|
            0 <= i < links_of(spans).len() && (#[trigger] links_of(spans)[i]).2 == url
                && links_of(spans)[i].0 == encode_utf8(shown_text(spans.take(k))).len()
                && links_of(spans)[i].1 == encode_utf8(
                shown_text(spans.take(k)) + span_of(spans[k]).0,
            ).len(),
    decreases spans.len(),
{
    let rest = spans.drop_last();
    let above = links_of(rest);
    let all = links_of(spans);
    if span_of(spans[k]).1 is Some {
        let url = span_of(spans[k]).1->0;
        if k < rest.len() {
            links_cover_their_text(rest, k);
            assert(rest.take(k) =~= spans.take(k));
            let i = choose|i: int|
                0 <= i < above.len() && (#[trigger] above[i]).2 == url && above[i].0
                    == encode_utf8(shown_text(rest.take(k))).len() && above[i].1 == encode_utf8(
                    shown_text(rest.take(k)) + span_of(rest[k]).0,
                ).len();
            assert(all[i] == above[i]);
        } else {
            assert(spans.take(k) =~= rest);
            let i = above.len() as int;
            assert(all[i].2 == url);
        }
    }
}

/// There are as many links as pieces with an address.
pub proof fn links_are_counted(spans: Seq<InlineSpan>, more: InlineSpan)
    ensures
        links_of(spans.push(more)).len() == links_of(spans).len() + (if span_of(more).1 is Some {
            1int
        } else {
            0
        }),
        shown_text(spans.push(more)) == shown_text(spans) + span_of(more).0,
{
    assert(spans.push(more).drop_last() =~= spans);
}

} // verus!
