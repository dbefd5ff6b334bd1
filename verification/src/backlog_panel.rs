//! The backlog panel's decisions: what its columns show, how the keyboard
//! cursor moves, what editing, moving, completing and copying a task do, and
//! how its rows look.

use vstd::prelude::*;
use vstd::slice::slice_subrange;
use vstd::utf8::encode_utf8;
use crate::day_plan::{strip_trailing_comment, without_comment};
use crate::format::{append_decimal, decimal};
use crate::inbox::text_of;
use crate::lines::strings;
use crate::moments::{date_text, format_date, Date};
use crate::sort::{ascending, sort, sorted, views, Ranked};
use crate::text::{
    append, append_str, from_chars, own, same, same_str, to_chars, trim, trim_end, trimmed,
    trimmed_end,
};
use crate::words::list_holds;

verus! {

/// A column of the backlog.
#[derive(Debug, Clone, Copy, PartialEq, Eq, Structural)]
pub enum SectionKind {
    Soon,
    Someday,
    Completed,
}

impl SectionKind {
    /// The column's heading.
    pub fn heading(self) -> (name: &'static str)
        ensures
            name@ == heading_of(self),
    {
        match self {
            SectionKind::Soon => "Soon",
            SectionKind::Someday => "Someday",
            SectionKind::Completed => "Completed",
        }
    }
}

/// A column's heading.
pub open spec fn heading_of(section: SectionKind) -> Seq<char> {
    match section {
        SectionKind::Soon => "Soon"@,
        SectionKind::Someday => "Someday"@,
        SectionKind::Completed => "Completed"@,
    }
}

/// A task of the backlog.
#[derive(Debug, Clone, PartialEq)]
pub struct BacklogTask {
    pub text: String,
    /// The line of the file that it stands on.
    pub line: u32,
    pub checked: bool,
    /// The day that its completion stamp names.
    pub completed_on: Option<Date>,
}

/// The parsed backlog, each column in the file's order.
#[derive(Debug, Clone, PartialEq)]
pub struct Backlog {
    pub soon: Vec<BacklogTask>,
    pub someday: Vec<BacklogTask>,
    pub completed: Vec<BacklogTask>,
}

impl Default for Backlog {
    fn default() -> (backlog: Self)
        ensures
            backlog.soon@.len() == 0,
            backlog.someday@.len() == 0,
            backlog.completed@.len() == 0,
    {
        Backlog { soon: Vec::new(), someday: Vec::new(), completed: Vec::new() }
    }
}

impl Backlog {
    /// The tasks of a column.
    pub open spec fn tasks(&self, section: SectionKind) -> Seq<BacklogTask> {
        match section {
            SectionKind::Soon => self.soon@,
            SectionKind::Someday => self.someday@,
            SectionKind::Completed => self.completed@,
        }
    }

    /// The tasks of a column, in the file's order.
    pub fn section(&self, section: SectionKind) -> (tasks: &Vec<BacklogTask>)
        ensures
            tasks@ == self.tasks(section),
    {
        match section {
            SectionKind::Soon => &self.soon,
            SectionKind::Someday => &self.someday,
            SectionKind::Completed => &self.completed,
        }
    }

    /// Whether no column has a task.
    pub fn is_empty(&self) -> (empty: bool)
        ensures
            empty == (self.soon@.len() == 0 && self.someday@.len() == 0 && self.completed@.len()
                == 0),
    {
        self.soon.len() == 0 && self.someday.len() == 0 && self.completed.len() == 0
    }
}

/// A task's place in its column, with the day it was completed on.
pub struct Placed {
    pub at: usize,
    pub date: Option<Date>,
}

/// What a place holds.
pub struct Place {
    pub at: int,
    pub date: Option<Date>,
}

impl View for Placed {
    type V = Place;

    open spec fn view(&self) -> Place {
        Place { at: self.at as int, date: self.date }
    }
}

/// Whether `a` is a later day than `b`; no day is earlier than any.
pub open spec fn later_day(a: Option<Date>, b: Option<Date>) -> bool {
    match (a, b) {
        (Some(_), None) => true,
        (Some(x), Some(y)) => x.year > y.year || (x.year == y.year && (x.month > y.month || (x.month
            == y.month && x.day > y.day))),
        _ => false,
    }
}

impl Ranked for Placed {
    open spec fn before(a: Place, b: Place) -> bool {
        later_day(a.date, b.date)
    }

    fn is_before(&self, other: &Self) -> (yes: bool) {
        match (self.date, other.date) {
            (Some(_), None) => true,
            (Some(x), Some(y)) => x.year > y.year || (x.year == y.year && (x.month > y.month || (
            x.month == y.month && x.day > y.day))),
            _ => false,
        }
    }
}

/// The places of open tasks, in order.
pub open spec fn open_places(tasks: Seq<BacklogTask>) -> Seq<int>
    decreases tasks.len(),
{
    if tasks.len() == 0 {
        Seq::empty()
    } else {
        let above = open_places(tasks.drop_last());
        if tasks.last().checked {
            above
        } else {
            above.push(tasks.len() - 1)
        }
    }
}

/// The places of tasks, the last first.
pub open spec fn reversed_places(tasks: Seq<BacklogTask>) -> Seq<Place> {
    Seq::new(
        tasks.len(),
        |i: int|
            Place {
                at: tasks.len() - 1 - i,
                date: tasks[tasks.len() - 1 - i].completed_on,
            },
    )
}

/// The places that a column shows, in order: open tasks in the file's order in
/// the first two, and all of the last, newest first.
pub open spec fn visible(backlog: Backlog, section: SectionKind) -> Seq<int> {
    if section == SectionKind::Completed {
        sorted::<Placed>(reversed_places(backlog.completed@)).map_values(|p: Place| p.at)
    } else {
        open_places(backlog.tasks(section))
    }
}

/// Positions as integers.
pub open spec fn ints(v: Seq<usize>) -> Seq<int> {
    v.map_values(|i: usize| i as int)
}

proof fn lemma_open_places(tasks: Seq<BacklogTask>)
    ensures
        forall|i: int|
            0 <= i < open_places(tasks).len() ==> 0 <= #[trigger] open_places(tasks)[i]
                < tasks.len(),
        open_places(tasks).len() <= tasks.len(),
    decreases tasks.len(),
{
    if tasks.len() > 0 {
        lemma_open_places(tasks.drop_last());
    }
}

/// What a column shows are places of its tasks.
pub proof fn visible_tasks_exist(backlog: Backlog, section: SectionKind)
    ensures
        forall|i: int|
            0 <= i < visible(backlog, section).len() ==> 0 <= #[trigger] visible(
                backlog,
                section,
            )[i] < backlog.tasks(section).len(),
        visible(backlog, section).len() <= backlog.tasks(section).len(),
{
    if section == SectionKind::Completed {
        let all = reversed_places(backlog.completed@);
        let s = sorted::<Placed>(all);
        crate::sort::lemma_sorted_keeps::<Placed>(all);
        assert forall|i: int| 0 <= i < visible(backlog, section).len() implies 0
            <= #[trigger] visible(backlog, section)[i] < backlog.tasks(section).len() by {
            crate::sort::lemma_sorted_members::<Placed>(all, s[i]);
            assert(s.contains(s[i]));
            let k = choose|k: int| 0 <= k < all.len() && all[k] == s[i];
            assert(visible(backlog, section)[i] == s[i].at);
        }
    } else {
        lemma_open_places(backlog.tasks(section));
    }
}

/// The completed column shows later days first.
pub proof fn completed_tasks_are_newest_first(backlog: Backlog)
    ensures
        ascending::<Placed>(sorted::<Placed>(reversed_places(backlog.completed@))),
        visible(backlog, SectionKind::Completed).len() == backlog.completed@.len(),
{
    crate::sort::lemma_sorted_ascending::<Placed>(reversed_places(backlog.completed@));
    crate::sort::lemma_sorted_keeps::<Placed>(reversed_places(backlog.completed@));
}

impl Backlog {
    /// The places of the tasks that a column shows, in order. The renderer and
    /// the keyboard cursor both index into this, so there is one order to keep
    /// in step.
    pub fn visible_tasks(&self, section: SectionKind) -> (places: Vec<usize>)
        ensures
            ints(places@) == visible(*self, section),
            forall|i: int| 0 <= i < places@.len() ==> (#[trigger] places@[i]) < self.tasks(
                section,
            ).len(),
    {
        proof {
            visible_tasks_exist(*self, section);
        }
        let tasks = self.section(section);
        let ghost all = tasks@;
        let mut out: Vec<usize> = Vec::new();
        if section == SectionKind::Completed {
            let mut places: Vec<Placed> = Vec::new();
            let n: usize = tasks.len();
            let mut i: usize = 0;
            while i < n
                invariant
                    i <= n,
                    n == tasks@.len(),
                    all == tasks@,
                    places@.len() == i,
                    forall|j: int|
                        0 <= j < i ==> #[trigger] views(places@)[j] == reversed_places(all)[j],
                decreases n - i,
            {
                let at: usize = n - 1 - i;
                let ghost before = places@;
                places.push(Placed { at, date: tasks[at].completed_on });
                assert(views(places@) =~= views(before).push(places@[i as int]@));
                assert(reversed_places(all)[i as int] == places@[i as int]@);
                i = i + 1;
            }
            assert(views(places@) =~= reversed_places(all));
            let ordered = sort(places);
            let ghost wanted = visible(*self, section);
            let mut k: usize = 0;
            assert(wanted.len() == ordered@.len()) by {
                assert(views(ordered@).len() == ordered@.len());
            }
            while k < ordered.len()
                invariant
                    k <= ordered@.len(),
                    views(ordered@) == sorted::<Placed>(reversed_places(all)),
                    wanted == views(ordered@).map_values(|p: Place| p.at),
                    out@.len() == k,
                    forall|j: int| 0 <= j < k ==> #[trigger] out@[j] == wanted[j],
                decreases ordered@.len() - k,
            {
                assert(views(ordered@)[k as int] == ordered@[k as int]@);
                out.push(ordered[k].at);
                k = k + 1;
            }
            assert(ints(out@) =~= wanted);
        } else {
            let mut i: usize = 0;
            assert(all.take(0) =~= Seq::<BacklogTask>::empty());
            assert(ints(out@) =~= Seq::<int>::empty());
            while i < tasks.len()
                invariant
                    i <= tasks@.len(),
                    all == tasks@,
                    ints(out@) == open_places(all.take(i as int)),
                decreases tasks@.len() - i,
            {
                let ghost before = out@;
                proof {
                    assert(all.take(i + 1).drop_last() =~= all.take(i as int));
                    assert(all.take(i + 1).last() == all[i as int]);
                }
                if !tasks[i].checked {
                    out.push(i);
                    assert(ints(out@) =~= ints(before).push(i as int));
                }
                i = i + 1;
            }
            assert(all.take(all.len() as int) =~= all);
        }
        assert forall|i: int| 0 <= i < out@.len() implies (#[trigger] out@[i]) < self.tasks(
            section,
        ).len() by {
            assert(ints(out@)[i] == out@[i] as int);
        }
        out
    }

    /// How many tasks a column shows.
    fn shown(&self, section: SectionKind) -> (n: usize)
        ensures
            n == visible(*self, section).len(),
    {
        let places = self.visible_tasks(section);
        assert(ints(places@).len() == places@.len());
        places.len()
    }
}

/// The keyboard cursor: a column, and a row of what it shows. It goes by
/// position and not by task, so it survives a reparse: it is clamped to what is
/// there each time it is read.
#[derive(Debug, Clone, Copy, PartialEq, Eq, Structural)]
pub struct TaskSelection {
    pub section: SectionKind,
    pub index: usize,
}

/// What the inline editor edits.
#[derive(Debug, Clone, PartialEq)]
pub enum EditTarget {
    /// A task, by its column, line and text when editing started.
    Existing { section: SectionKind, line: u32, original_text: String },
    /// A new task of a column.
    New { section: SectionKind },
}

/// What an edit is about.
pub enum Target {
    Existing(SectionKind, u32, Seq<char>),
    New(SectionKind),
}

impl View for EditTarget {
    type V = Target;

    open spec fn view(&self) -> Target {
        match *self {
            EditTarget::Existing { section, line, original_text } => Target::Existing(
                section,
                line,
                original_text@,
            ),
            EditTarget::New { section } => Target::New(section),
        }
    }
}

/// What completing a task is doing. Its two writes are ordered: the note comes
/// first, so that the backlog never claims a completion that no note records.
#[derive(Debug, Clone, Copy, PartialEq, Eq, Structural)]
pub enum Marking {
    Idle,
    /// The task is being added to today's note.
    InNote,
    /// It is being moved to the completed column.
    InBacklog,
}

/// The panel's state.
pub struct BacklogPanel {
    pub backlog: Backlog,
    pub selected: Option<TaskSelection>,
    /// The row lit by the copy flash.
    pub copy_flash: Option<TaskSelection>,
    pub edit: Option<EditTarget>,
    pub marking: Marking,
    /// Whether the backlog's file is open.
    pub has_buffer: bool,
}

/// A selection clamped to what its column shows.
pub open spec fn clamped(backlog: Backlog, selected: Option<TaskSelection>) -> Option<
    TaskSelection,
> {
    match selected {
        Some(s) => {
            let n = visible(backlog, s.section).len();
            if n == 0 {
                None
            } else if s.index < n {
                Some(s)
            } else {
                Some(TaskSelection { section: s.section, index: (n - 1) as usize })
            }
        },
        None => None,
    }
}

/// The first column that shows anything.
pub open spec fn first_column(backlog: Backlog) -> Option<SectionKind> {
    if visible(backlog, SectionKind::Soon).len() > 0 {
        Some(SectionKind::Soon)
    } else if visible(backlog, SectionKind::Someday).len() > 0 {
        Some(SectionKind::Someday)
    } else if visible(backlog, SectionKind::Completed).len() > 0 {
        Some(SectionKind::Completed)
    } else {
        None
    }
}

/// The nearest column in a direction that shows anything.
pub open spec fn column_from(backlog: Backlog, section: SectionKind, forward: bool) -> Option<
    SectionKind,
> {
    let soon = visible(backlog, SectionKind::Soon).len() > 0;
    let someday = visible(backlog, SectionKind::Someday).len() > 0;
    let completed = visible(backlog, SectionKind::Completed).len() > 0;
    match (section, forward) {
        (SectionKind::Soon, true) => if someday {
            Some(SectionKind::Someday)
        } else if completed {
            Some(SectionKind::Completed)
        } else {
            None
        },
        (SectionKind::Someday, true) => if completed {
            Some(SectionKind::Completed)
        } else {
            None
        },
        (SectionKind::Someday, false) => if soon {
            Some(SectionKind::Soon)
        } else {
            None
        },
        (SectionKind::Completed, false) => if someday {
            Some(SectionKind::Someday)
        } else if soon {
            Some(SectionKind::Soon)
        } else {
            None
        },
        _ => None,
    }
}

/// A row of a column.
pub open spec fn row(section: SectionKind, index: int) -> Option<TaskSelection> {
    Some(TaskSelection { section, index: index as usize })
}

/// Where the cursor goes on a motion to the next row.
pub open spec fn next_row(backlog: Backlog, selected: Option<TaskSelection>) -> Option<
    TaskSelection,
> {
    match clamped(backlog, selected) {
        Some(s) => row(
            s.section,
            if s.index + 1 < visible(backlog, s.section).len() {
                s.index + 1
            } else {
                visible(backlog, s.section).len() - 1
            },
        ),
        None => match first_column(backlog) {
            Some(section) => row(section, 0),
            None => selected,
        },
    }
}

/// Where the cursor goes on a motion to the previous row.
pub open spec fn previous_row(backlog: Backlog, selected: Option<TaskSelection>) -> Option<
    TaskSelection,
> {
    match clamped(backlog, selected) {
        Some(s) => row(
            s.section,
            if s.index > 0 {
                s.index - 1
            } else {
                0
            },
        ),
        None => match first_column(backlog) {
            Some(section) => row(section, visible(backlog, section).len() - 1),
            None => selected,
        },
    }
}

/// The column that a motion to an end of a column is in.
pub open spec fn cursor_column(backlog: Backlog, selected: Option<TaskSelection>) -> Option<
    SectionKind,
> {
    match clamped(backlog, selected) {
        Some(s) => Some(s.section),
        None => first_column(backlog),
    }
}

/// Where the cursor goes on a motion to another column: it keeps its row, as
/// far as the column has it. Columns that show nothing are passed over.
pub open spec fn other_column(
    backlog: Backlog,
    selected: Option<TaskSelection>,
    forward: bool,
) -> Option<TaskSelection> {
    match clamped(backlog, selected) {
        Some(s) => match column_from(backlog, s.section, forward) {
            Some(section) => row(
                section,
                if s.index < visible(backlog, section).len() {
                    s.index as int
                } else {
                    visible(backlog, section).len() - 1
                },
            ),
            None => selected,
        },
        None => match first_column(backlog) {
            Some(section) => row(section, 0),
            None => selected,
        },
    }
}

/// The task under the cursor, with its column.
pub open spec fn task_under(backlog: Backlog, selected: Option<TaskSelection>) -> Option<
    (SectionKind, BacklogTask),
> {
    match clamped(backlog, selected) {
        Some(s) => Some(
            (s.section, backlog.tasks(s.section)[visible(backlog, s.section)[s.index as int]]),
        ),
        None => None,
    }
}

impl BacklogPanel {
    /// The cursor, clamped to what its column shows now; none once that is
    /// nothing.
    pub fn selection(&self) -> (selection: Option<TaskSelection>)
        ensures
            selection == clamped(self.backlog, self.selected),
    {
        match self.selected {
            Some(s) => {
                let n: usize = self.backlog.shown(s.section);
                if n == 0 {
                    None
                } else if s.index < n {
                    Some(s)
                } else {
                    Some(TaskSelection { section: s.section, index: n - 1 })
                }
            },
            None => None,
        }
    }

    /// The task under the cursor, with its column and its place in it.
    pub fn selected_task(&self) -> (found: Option<(SectionKind, &BacklogTask)>)
        ensures
            match found {
                Some((section, task)) => task_under(self.backlog, self.selected) == Some(
                    (section, *task),
                ),
                None => task_under(self.backlog, self.selected) is None,
            },
    {
        match self.selection() {
            Some(s) => {
                let places = self.backlog.visible_tasks(s.section);
                assert(ints(places@).len() == places@.len());
                assert(ints(places@)[s.index as int] == places@[s.index as int] as int);
                let at: usize = places[s.index];
                Some((s.section, &self.backlog.section(s.section)[at]))
            },
            None => None,
        }
    }

    /// The first column that shows anything: where the cursor lands when a
    /// motion arrives with nothing selected.
    pub fn first_populated_column(&self) -> (section: Option<SectionKind>)
        ensures
            section == first_column(self.backlog),
    {
        if self.backlog.shown(SectionKind::Soon) > 0 {
            Some(SectionKind::Soon)
        } else if self.backlog.shown(SectionKind::Someday) > 0 {
            Some(SectionKind::Someday)
        } else if self.backlog.shown(SectionKind::Completed) > 0 {
            Some(SectionKind::Completed)
        } else {
            None
        }
    }

    /// Puts the cursor on a row.
    pub fn select_row(&mut self, section: SectionKind, index: usize)
        ensures
            *final(self) == (BacklogPanel {
                selected: Some(TaskSelection { section, index }),
                ..*old(self)
            }),
    {
        self.selected = Some(TaskSelection { section, index });
    }

    /// Moves the cursor to the next row.
    pub fn select_next(&mut self)
        ensures
            *final(self) == (BacklogPanel {
                selected: next_row(old(self).backlog, old(self).selected),
                ..*old(self)
            }),
    {
        match self.selection() {
            Some(s) => {
                let n: usize = self.backlog.shown(s.section);
                let index: usize = if s.index + 1 < n {
                    s.index + 1
                } else {
                    n - 1
                };
                self.select_row(s.section, index);
            },
            None => {
                if let Some(section) = self.first_populated_column() {
                    self.select_row(section, 0);
                }
            },
        }
    }

    /// Moves the cursor to the previous row.
    pub fn select_previous(&mut self)
        ensures
            *final(self) == (BacklogPanel {
                selected: previous_row(old(self).backlog, old(self).selected),
                ..*old(self)
            }),
    {
        match self.selection() {
            Some(s) => {
                let index: usize = if s.index > 0 {
                    s.index - 1
                } else {
                    0
                };
                self.select_row(s.section, index);
            },
            None => {
                if let Some(section) = self.first_populated_column() {
                    let n: usize = self.backlog.shown(section);
                    self.select_row(section, n - 1);
                }
            },
        }
    }

    fn column_under_cursor(&self) -> (section: Option<SectionKind>)
        ensures
            section == cursor_column(self.backlog, self.selected),
    {
        match self.selection() {
            Some(s) => Some(s.section),
            None => self.first_populated_column(),
        }
    }

    /// Moves the cursor to the first row of its column.
    pub fn select_first(&mut self)
        ensures
            *final(self) == (BacklogPanel {
                selected: match cursor_column(old(self).backlog, old(self).selected) {
                    Some(section) => row(section, 0),
                    None => old(self).selected,
                },
                ..*old(self)
            }),
    {
        if let Some(section) = self.column_under_cursor() {
            self.select_row(section, 0);
        }
    }

    /// Moves the cursor to the last row of its column.
    pub fn select_last(&mut self)
        ensures
            *final(self) == (BacklogPanel {
                selected: match cursor_column(old(self).backlog, old(self).selected) {
                    Some(section) => row(section, visible(old(self).backlog, section).len() - 1),
                    None => old(self).selected,
                },
                ..*old(self)
            }),
    {
        if let Some(section) = self.column_under_cursor() {
            let n: usize = self.backlog.shown(section);
            self.select_row(section, n - 1);
        }
    }

    /// Moves the cursor to the nearest column in a direction that shows
    /// anything.
    pub fn select_column(&mut self, forward: bool)
        ensures
            *final(self) == (BacklogPanel {
                selected: other_column(old(self).backlog, old(self).selected, forward),
                ..*old(self)
            }),
    {
        match self.selection() {
            Some(s) => {
                let soon: bool = self.backlog.shown(SectionKind::Soon) > 0;
                let someday: bool = self.backlog.shown(SectionKind::Someday) > 0;
                let completed: bool = self.backlog.shown(SectionKind::Completed) > 0;
                let target: Option<SectionKind> = match (s.section, forward) {
                    (SectionKind::Soon, true) => {
                        if someday {
                            Some(SectionKind::Someday)
                        } else if completed {
                            Some(SectionKind::Completed)
                        } else {
                            None
                        }
                    },
                    (SectionKind::Someday, true) => {
                        if completed {
                            Some(SectionKind::Completed)
                        } else {
                            None
                        }
                    },
                    (SectionKind::Someday, false) => {
                        if soon {
                            Some(SectionKind::Soon)
                        } else {
                            None
                        }
                    },
                    (SectionKind::Completed, false) => {
                        if someday {
                            Some(SectionKind::Someday)
                        } else if soon {
                            Some(SectionKind::Soon)
                        } else {
                            None
                        }
                    },
                    _ => None,
                };
                if let Some(section) = target {
                    let n: usize = self.backlog.shown(section);
                    let index: usize = if s.index < n {
                        s.index
                    } else {
                        n - 1
                    };
                    self.select_row(section, index);
                }
            },
            None => {
                if let Some(section) = self.first_populated_column() {
                    self.select_row(section, 0);
                }
            },
        }
    }

    /// The edit that starts on the task under the cursor. The completed column
    /// is an audit trail, and not edited.
    pub fn edit_selected_task(&self) -> (target: Option<EditTarget>)
        ensures
            match target {
                Some(t) => task_under(self.backlog, self.selected) matches Some(found) && found.0
                    != SectionKind::Completed && t@ == Target::Existing(
                    found.0,
                    found.1.line,
                    found.1.text@,
                ),
                None => task_under(self.backlog, self.selected) matches Some(found) ==> found.0
                    == SectionKind::Completed,
            },
    {
        match self.selected_task() {
            Some((section, task)) => {
                if section == SectionKind::Completed {
                    return None;
                }
                Some(
                    EditTarget::Existing {
                        section,
                        line: task.line,
                        original_text: task.text.clone(),
                    },
                )
            },
            None => None,
        }
    }

    /// The edit that adds a task: to the cursor's column, or to the first one
    /// with no cursor, and never to the completed one.
    pub fn add_task(&self) -> (target: Option<EditTarget>)
        ensures
            match target {
                Some(t) => t@ == Target::New(
                    match clamped(self.backlog, self.selected) {
                        Some(s) => s.section,
                        None => SectionKind::Soon,
                    },
                ) && !(clamped(self.backlog, self.selected) matches Some(s) && s.section
                    == SectionKind::Completed),
                None => clamped(self.backlog, self.selected) matches Some(s) && s.section
                    == SectionKind::Completed,
            },
    {
        match self.selection() {
            Some(s) => {
                if s.section == SectionKind::Completed {
                    return None;
                }
                Some(EditTarget::New { section: s.section })
            },
            None => Some(EditTarget::New { section: SectionKind::Soon }),
        }
    }

    /// Where a move of the task under the cursor goes: only between the two
    /// open columns. The result is the task's column.
    pub fn move_from(&self, destination: SectionKind) -> (section: Option<SectionKind>)
        ensures
            section == (match task_under(self.backlog, self.selected) {
                Some(found) => if found.0 == destination || found.0 == SectionKind::Completed {
                    None
                } else {
                    Some(found.0)
                },
                None => None,
            }),
    {
        match self.selected_task() {
            Some((section, _)) => {
                if section == destination || section == SectionKind::Completed {
                    None
                } else {
                    Some(section)
                }
            },
            None => None,
        }
    }

    /// Lets the cursor follow a task that was moved: it is the last row of its
    /// new column.
    pub fn follow_move(&mut self, destination: SectionKind)
        ensures
            *final(self) == (BacklogPanel {
                selected: if visible(old(self).backlog, destination).len() > 0 {
                    row(destination, visible(old(self).backlog, destination).len() - 1)
                } else {
                    old(self).selected
                },
                ..*old(self)
            }),
    {
        let n: usize = self.backlog.shown(destination);
        if n > 0 {
            self.select_row(destination, n - 1);
        }
    }

    /// Whether the inline editor edits a task.
    pub fn is_editing(&self, section: SectionKind, line: u32, text: &str) -> (yes: bool)
        ensures
            yes == (self.edit is Some && self.edit->0@ == Target::Existing(section, line, text@)),
    {
        match &self.edit {
            Some(
                EditTarget::Existing { section: s, line: l, original_text },
            ) => *s == section && *l == line && same_str(original_text.as_str(), text),
            _ => false,
        }
    }

    /// Whether the inline editor adds a task to a column.
    pub fn is_adding_to(&self, section: SectionKind) -> (yes: bool)
        ensures
            yes == (self.edit is Some && self.edit->0@ == Target::New(section)),
    {
        match &self.edit {
            Some(EditTarget::New { section: s }) => *s == section,
            _ => false,
        }
    }

    /// Takes in the backlog as parsed now; the cursor is clamped when it is
    /// read.
    pub fn reparse(&mut self, backlog: Backlog)
        ensures
            *final(self) == (BacklogPanel { backlog, ..*old(self) }),
    {
        self.backlog = backlog;
    }

    /// Starts completing a task, where none is being completed and the
    /// backlog's file is open. The result is whether it starts.
    pub fn mark_done(&mut self, has_vault: bool) -> (started: bool)
        ensures
            started == (old(self).marking == Marking::Idle && old(self).has_buffer && has_vault),
            *final(self) == (if started {
                BacklogPanel { marking: Marking::InNote, ..*old(self) }
            } else {
                *old(self)
            }),
    {
        if self.marking != Marking::Idle || !self.has_buffer || !has_vault {
            return false;
        }
        self.marking = Marking::InNote;
        true
    }

    /// Takes in how adding the task to today's note went. The result is what to
    /// tell the user; without an error the backlog comes next.
    pub fn note_written(&mut self, error: Option<String>) -> (message: Option<String>)
        requires
            old(self).marking == Marking::InNote,
        ensures
            *final(self) == (BacklogPanel {
                marking: if error is Some {
                    Marking::Idle
                } else {
                    Marking::InBacklog
                },
                ..*old(self)
            }),
            text_of(message) == (match error {
                Some(e) => Some("Couldn't record the task in today's note: "@ + e@),
                None => None,
            }),
    {
        match error {
            Some(e) => {
                self.marking = Marking::Idle;
                let mut out: Vec<char> = to_chars("Couldn't record the task in today's note: ");
                append_str(&mut out, e.as_str());
                Some(from_chars(out.as_slice()))
            },
            None => {
                self.marking = Marking::InBacklog;
                None
            },
        }
    }

    /// Takes in how moving the task in the backlog went. Checking it again is
    /// safe: the panel shows the file, in which the task is still open.
    pub fn backlog_written(&mut self, error: Option<String>) -> (message: Option<String>)
        requires
            old(self).marking == Marking::InBacklog,
        ensures
            *final(self) == (BacklogPanel { marking: Marking::Idle, ..*old(self) }),
            text_of(message) == (match error {
                Some(e) => Some(
                    "The task was recorded in today's note, but the backlog couldn't be updated: "@
                        + e@,
                ),
                None => None,
            }),
    {
        self.marking = Marking::Idle;
        match error {
            Some(e) => {
                let mut out: Vec<char> = to_chars(
                    "The task was recorded in today's note, but the backlog couldn't be updated: ",
                );
                append_str(&mut out, e.as_str());
                Some(from_chars(out.as_slice()))
            },
            None => None,
        }
    }
}

/// Why a completed task cannot be moved in the backlog, if so.
pub fn move_error(has_buffer: bool, located: bool) -> (error: Option<&'static str>)
    ensures
        match error {
            Some(e) => if !has_buffer {
                e@ == "backlog.md is no longer open"@
            } else {
                !located && e@ == "the task changed while it was being completed"@
            },
            None => has_buffer && located,
        },
{
    if !has_buffer {
        return Some("backlog.md is no longer open");
    }
    if !located {
        return Some("the task changed while it was being completed");
    }
    None
}

/// A motion keeps the cursor on a row that is shown, or leaves it where it was
/// with nothing to go to.
pub proof fn motions_stay_on_rows(backlog: Backlog, selected: Option<TaskSelection>, forward: bool)
    requires
        first_column(backlog) is Some,
        forall|section: SectionKind| #[trigger]
            visible(backlog, section).len() <= usize::MAX,
    ensures
        clamped(backlog, next_row(backlog, selected)) == next_row(backlog, selected),
        clamped(backlog, previous_row(backlog, selected)) == previous_row(backlog, selected),
        clamped(backlog, selected) is Some && column_from(
            backlog,
            (clamped(backlog, selected)->0).section,
            forward,
        ) is Some ==> clamped(backlog, other_column(backlog, selected, forward)) == other_column(
            backlog,
            selected,
            forward,
        ),
{
    assert(visible(backlog, SectionKind::Soon).len() <= usize::MAX);
    assert(visible(backlog, SectionKind::Someday).len() <= usize::MAX);
    assert(visible(backlog, SectionKind::Completed).len() <= usize::MAX);
}

/// The comment that a task's text ends with, as it stands in the file.
pub open spec fn hidden_suffix(original: Seq<char>) -> Seq<char> {
    trim(original.skip(without_comment(original).len() as int))
}

/// An edited text with the comment put back that the editor did not show.
pub open spec fn restored(original: Seq<char>, edited: Seq<char>) -> Seq<char> {
    if hidden_suffix(original).len() == 0 {
        edited
    } else {
        edited + seq![' '] + hidden_suffix(original)
    }
}

/// Puts back the trailing comment that the inline editor did not show, so that
/// renaming a captured task keeps its identity marker.
pub fn restore_hidden_suffix(original: &str, edited: &str) -> (text: String)
    ensures
        text@ == restored(original@, edited@),
{
    let chars = to_chars(original);
    let shown = strip_trailing_comment(chars.as_slice());
    let n: usize = shown.len();
    let rest = slice_subrange(chars.as_slice(), n, chars.len());
    assert(rest@ =~= original@.skip(n as int));
    let hidden = trimmed(rest);
    let mut out: Vec<char> = to_chars(edited);
    if hidden.len() > 0 {
        out.push(' ');
        append(&mut out, hidden);
    }
    assert(out@ =~= restored(original@, edited@));
    from_chars(out.as_slice())
}

/// What committing an edit does.
#[derive(Debug, Clone, PartialEq)]
pub enum Commit {
    Nothing,
    /// The file is not open: the edit is dropped.
    NotOpen,
    /// Look the task up in the file, and give it a new text.
    Rename { section: SectionKind, line: u32, original_text: String, new_text: String },
    /// Add a task to a column.
    Append { section: SectionKind, text: String },
}

/// What a commit says.
pub enum Committed {
    Nothing,
    NotOpen,
    Rename(SectionKind, u32, Seq<char>, Seq<char>),
    Append(SectionKind, Seq<char>),
}

impl View for Commit {
    type V = Committed;

    open spec fn view(&self) -> Committed {
        match *self {
            Commit::Nothing => Committed::Nothing,
            Commit::NotOpen => Committed::NotOpen,
            Commit::Rename { section, line, original_text, new_text } => Committed::Rename(
                section,
                line,
                original_text@,
                new_text@,
            ),
            Commit::Append { section, text } => Committed::Append(section, text@),
        }
    }
}

/// What committing an edit does. An empty text is a revert and not a delete,
/// and a text is unchanged where it is what the editor showed at the start.
pub open spec fn committed(target: Target, editor_text: Seq<char>, has_buffer: bool) -> Committed {
    let text = trim(editor_text);
    match target {
        Target::Existing(section, line, original) => if text.len() == 0 || text == without_comment(
            original,
        ) {
            Committed::Nothing
        } else if !has_buffer {
            Committed::NotOpen
        } else {
            Committed::Rename(section, line, original, restored(original, text))
        },
        Target::New(section) => if text.len() == 0 {
            Committed::Nothing
        } else {
            Committed::Append(section, text)
        },
    }
}

/// What committing an edit does.
pub fn commit_edit(target: EditTarget, editor_text: &str, has_buffer: bool) -> (commit: Commit)
    ensures
        commit@ == committed(target@, editor_text@, has_buffer),
{
    let chars = to_chars(editor_text);
    let text = trimmed(chars.as_slice());
    if text.len() == 0 {
        return Commit::Nothing;
    }
    match target {
        EditTarget::Existing { section, line, original_text } => {
            let original = to_chars(original_text.as_str());
            if same(text, strip_trailing_comment(original.as_slice())) {
                return Commit::Nothing;
            }
            if !has_buffer {
                return Commit::NotOpen;
            }
            let new_text = restore_hidden_suffix(
                original_text.as_str(),
                from_chars(text).as_str(),
            );
            Commit::Rename { section, line, original_text, new_text }
        },
        EditTarget::New { section } => Commit::Append { section, text: from_chars(text) },
    }
}

/// What the panel says where an edit is dropped.
pub const EDIT_NOT_OPEN: &'static str = "backlog.md is no longer open, so the edit wasn't applied.";

pub const EDIT_STALE: &'static str = "That task changed outside the panel, so the edit wasn't applied.";

pub const MOVE_STALE: &'static str = "That task changed outside the panel, so it wasn't moved.";

/// What writing a rename comes to, once the task was looked for in the file.
#[derive(Debug, Clone, Copy, PartialEq)]
pub enum RenameStep {
    Write,
    /// The edit is dropped, and the user told.
    Message(&'static str),
}

/// What writing a rename comes to: a line that changed under the edit is left
/// alone.
pub fn rename_step(has_buffer: bool, located: bool) -> (step: RenameStep)
    ensures
        match step {
            RenameStep::Write => has_buffer && located,
            RenameStep::Message(m) => if !has_buffer {
                m@ == EDIT_NOT_OPEN@
            } else {
                !located && m@ == EDIT_STALE@
            },
        },
{
    if !has_buffer {
        RenameStep::Message(EDIT_NOT_OPEN)
    } else if !located {
        RenameStep::Message(EDIT_STALE)
    } else {
        RenameStep::Write
    }
}

/// What moving a task to the other open column comes to.
#[derive(Debug, Clone, Copy, PartialEq)]
pub enum MoveStep {
    Nothing,
    /// The task stays where it is, and the user is told.
    Message(&'static str),
    /// The move is written, to this column.
    Move(SectionKind),
}

/// What moving a task to the other open column comes to: a completed task does
/// not move, nor does any without an open file.
pub fn move_step(section: SectionKind, has_buffer: bool, located: bool) -> (step: MoveStep)
    ensures
        match step {
            MoveStep::Nothing => section == SectionKind::Completed || !has_buffer,
            MoveStep::Message(m) => section != SectionKind::Completed && has_buffer && !located
                && m@ == MOVE_STALE@,
            MoveStep::Move(destination) => has_buffer && located && match section {
                SectionKind::Soon => destination == SectionKind::Someday,
                SectionKind::Someday => destination == SectionKind::Soon,
                SectionKind::Completed => false,
            },
        },
{
    let destination = match section {
        SectionKind::Soon => SectionKind::Someday,
        SectionKind::Someday => SectionKind::Soon,
        SectionKind::Completed => {
            return MoveStep::Nothing;
        },
    };
    if !has_buffer {
        MoveStep::Nothing
    } else if !located {
        MoveStep::Message(MOVE_STALE)
    } else {
        MoveStep::Move(destination)
    }
}

/// How a new task is written.
#[derive(Debug, Clone, Copy, PartialEq, Eq, Structural)]
pub enum AppendStep {
    Nothing,
    /// Into the file that is open.
    Edit,
    /// Into the vault's file, which is created where it is absent.
    Create,
}

/// How a new task is written.
pub fn append_step(has_buffer: bool, has_vault: bool) -> (step: AppendStep)
    ensures
        step == (if has_buffer {
            AppendStep::Edit
        } else if has_vault {
            AppendStep::Create
        } else {
            AppendStep::Nothing
        }),
{
    if has_buffer {
        AppendStep::Edit
    } else if has_vault {
        AppendStep::Create
    } else {
        AppendStep::Nothing
    }
}

/// A write to the backlog.
#[derive(Debug, Clone, Copy, PartialEq, Eq, Structural)]
pub enum BacklogWrite {
    /// A rename or a move.
    Update,
    /// A new task in the open file.
    Add,
    /// A new task in a file that was not open.
    Create,
}

/// What the panel says where a write to the backlog failed.
pub fn write_failed(write: BacklogWrite, error: &str) -> (message: String)
    ensures
        message@ == (match write {
            BacklogWrite::Update => "Couldn't update backlog.md: "@,
            BacklogWrite::Add => "Couldn't add the task to backlog.md: "@,
            BacklogWrite::Create => "Couldn't create backlog.md: "@,
        }) + error@,
{
    let mut out: Vec<char> = to_chars(
        match write {
            BacklogWrite::Update => "Couldn't update backlog.md: ",
            BacklogWrite::Add => "Couldn't add the task to backlog.md: ",
            BacklogWrite::Create => "Couldn't create backlog.md: ",
        },
    );
    append_str(&mut out, error);
    from_chars(out.as_slice())
}

/// A task as Markdown.
pub open spec fn task_markdown(text: Seq<char>, checked: bool) -> Seq<char> {
    (if checked {
        "- [x] "@
    } else {
        "- [ ] "@
    }) + text
}

/// What copying a task puts on the clipboard: the file's own text of it where
/// it was found, on a line of its own.
pub fn copied_markdown(from_file: Option<&str>, text: &str, checked: bool) -> (out: String)
    ensures
        out@ == seq!['\n'] + (match from_file {
            Some(t) => trim_end(t@),
            None => task_markdown(text@, checked),
        }),
{
    let mut out: Vec<char> = Vec::new();
    out.push('\n');
    match from_file {
        Some(t) => {
            append(&mut out, trimmed_end(to_chars(t).as_slice()));
        },
        None => {
            append_str(
                &mut out,
                if checked {
                    "- [x] "
                } else {
                    "- [ ] "
                },
            );
            append_str(&mut out, text);
        },
    }
    assert(out@ =~= seq!['\n'] + (match from_file {
        Some(t) => trim_end(t@),
        None => task_markdown(text@, checked),
    }));
    from_chars(out.as_slice())
}

/// The background of a row.
#[derive(Debug, Clone, Copy, PartialEq, Eq, Structural)]
pub enum RowBackground {
    Plain,
    Selected,
    /// The pulse after a copy.
    Flash,
}

/// The background of a row: the pulse outranks the cursor, so that it is seen
/// even on the row the cursor is on.
pub open spec fn background(
    backlog: Backlog,
    selected: Option<TaskSelection>,
    flash: Option<TaskSelection>,
    at: TaskSelection,
) -> RowBackground {
    if flash == Some(at) {
        RowBackground::Flash
    } else if clamped(backlog, selected) == Some(at) {
        RowBackground::Selected
    } else {
        RowBackground::Plain
    }
}

/// How the row of an open task looks.
#[derive(Debug, Clone, PartialEq)]
pub struct OpenRow {
    pub background: RowBackground,
    pub check_id: String,
    pub check_disabled: bool,
    pub task_id: String,
    pub text_id: String,
    /// The text to show: without the trailing comment.
    pub text: String,
    pub move_id: String,
    pub move_to: SectionKind,
    pub move_tooltip: String,
    pub reveal_id: String,
}

/// The id of a part of a row.
pub open spec fn row_id(prefix: Seq<char>, section: SectionKind, index: int) -> Seq<char> {
    prefix + heading_of(section) + seq!['-'] + decimal(index as nat)
}

fn element_id(prefix: &str, section: SectionKind, index: usize) -> (id: String)
    ensures
        id@ == row_id(prefix@, section, index as int),
{
    let mut out: Vec<char> = to_chars(prefix);
    append_str(&mut out, section.heading());
    out.push('-');
    append_decimal(&mut out, index as u64);
    from_chars(out.as_slice())
}

/// The column that a task's move button leads to.
pub open spec fn move_target(section: SectionKind) -> SectionKind {
    if section == SectionKind::Someday {
        SectionKind::Soon
    } else {
        SectionKind::Someday
    }
}

impl BacklogPanel {
    /// The background of a row.
    pub fn row_background(&self, at: TaskSelection) -> (shade: RowBackground)
        ensures
            shade == background(self.backlog, self.selected, self.copy_flash, at),
    {
        if let Some(flash) = self.copy_flash {
            if flash == at {
                return RowBackground::Flash;
            }
        }
        if let Some(selection) = self.selection() {
            if selection == at {
                return RowBackground::Selected;
            }
        }
        RowBackground::Plain
    }

    /// How the row of an open task looks; `None` where the inline editor stands
    /// in its place.
    pub fn open_task_row(&self, section: SectionKind, index: usize, task: &BacklogTask) -> (row:
        Option<OpenRow>)
        ensures
            match row {
                Some(r) => {
                    &&& !(self.edit is Some && self.edit->0@ == Target::Existing(
                        section,
                        task.line,
                        task.text@,
                    ))
                    &&& r.background == background(
                        self.backlog,
                        self.selected,
                        self.copy_flash,
                        TaskSelection { section, index },
                    )
                    &&& r.check_disabled == (self.marking != Marking::Idle)
                    &&& r.check_id@ == row_id("backlog-check-"@, section, index as int)
                    &&& r.task_id@ == row_id("backlog-task-"@, section, index as int)
                    &&& r.text_id@ == row_id("backlog-text-"@, section, index as int)
                    &&& r.move_id@ == row_id("backlog-move-"@, section, index as int)
                    &&& r.reveal_id@ == row_id("backlog-reveal-"@, section, index as int)
                    &&& r.text@ == without_comment(task.text@)
                    &&& r.move_to == move_target(section)
                    &&& r.move_tooltip@ == "Move to "@ + heading_of(move_target(section))
                },
                None => self.edit is Some && self.edit->0@ == Target::Existing(
                    section,
                    task.line,
                    task.text@,
                ),
            },
    {
        if self.is_editing(section, task.line, task.text.as_str()) {
            return None;
        }
        let move_to: SectionKind = if section == SectionKind::Someday {
            SectionKind::Soon
        } else {
            SectionKind::Someday
        };
        let mut tooltip: Vec<char> = to_chars("Move to ");
        append_str(&mut tooltip, move_to.heading());
        Some(
            OpenRow {
                background: self.row_background(TaskSelection { section, index }),
                check_id: element_id("backlog-check-", section, index),
                check_disabled: self.marking != Marking::Idle,
                task_id: element_id("backlog-task-", section, index),
                text_id: element_id("backlog-text-", section, index),
                text: from_chars(strip_trailing_comment(to_chars(task.text.as_str()).as_slice())),
                move_id: element_id("backlog-move-", section, index),
                move_to,
                move_tooltip: from_chars(tooltip.as_slice()),
                reveal_id: element_id("backlog-reveal-", section, index),
            },
        )
    }
}

/// What stands above an open column.
#[derive(Debug, Clone, PartialEq)]
pub struct OpenHeader {
    pub title: &'static str,
    /// The number of tasks shown.
    pub count: String,
    pub add_id: String,
    pub add_tooltip: &'static str,
    pub list_id: String,
}

impl BacklogPanel {
    /// What stands above an open column.
    pub fn open_header(&self, section: SectionKind) -> (header: OpenHeader)
        ensures
            header.title@ == heading_of(section),
            header.count@ == decimal(visible(self.backlog, section).len()),
            header.add_id@ == "backlog-add-"@ + heading_of(section),
            header.add_tooltip@ == (if section == SectionKind::Soon {
                "Add to Soon"@
            } else {
                "Add to Someday"@
            }),
            header.list_id@ == "backlog-section-"@ + heading_of(section),
    {
        let mut count: Vec<char> = Vec::new();
        append_decimal(&mut count, self.backlog.shown(section) as u64);
        assert(count@ =~= decimal(visible(self.backlog, section).len()));
        let mut add_id: Vec<char> = to_chars("backlog-add-");
        append_str(&mut add_id, section.heading());
        let mut list_id: Vec<char> = to_chars("backlog-section-");
        append_str(&mut list_id, section.heading());
        OpenHeader {
            title: section.heading(),
            count: from_chars(count.as_slice()),
            add_id: from_chars(add_id.as_slice()),
            add_tooltip: if section == SectionKind::Soon {
                "Add to Soon"
            } else {
                "Add to Someday"
            },
            list_id: from_chars(list_id.as_slice()),
        }
    }

    /// How the row of a completed task looks: its background, the id of its
    /// text, and the day it was completed on.
    pub fn completed_row(&self, index: usize, task: &BacklogTask) -> (row: (
        RowBackground,
        String,
        Option<String>,
    ))
        ensures
            row.0 == background(
                self.backlog,
                self.selected,
                self.copy_flash,
                TaskSelection { section: SectionKind::Completed, index },
            ),
            row.1@ == "backlog-text-completed-"@ + decimal(index as nat),
            text_of(row.2) == (match task.completed_on {
                Some(d) => date_text(d.year, d.month, d.day, "%Y-%m-%d"@),
                None => None,
            }),
    {
        let mut id: Vec<char> = to_chars("backlog-text-completed-");
        append_decimal(&mut id, index as u64);
        let day = match task.completed_on {
            Some(d) => format_date(d.year, d.month, d.day, "%Y-%m-%d"),
            None => None,
        };
        (
            self.row_background(TaskSelection { section: SectionKind::Completed, index }),
            from_chars(id.as_slice()),
            day,
        )
    }
}

/// A piece of a task's text.
#[derive(Debug, Clone, PartialEq)]
pub enum InlineSpan {
    Text(String),
    Link { text: String, url: String },
}

/// What a piece holds: its text, and its address for a link.
pub open spec fn span_of(span: InlineSpan) -> (Seq<char>, Option<Seq<char>>) {
    match span {
        InlineSpan::Text(t) => (t@, None),
        InlineSpan::Link { text, url } => (text@, Some(url@)),
    }
}

/// The text that pieces show.
pub open spec fn shown_text(spans: Seq<InlineSpan>) -> Seq<char>
    decreases spans.len(),
{
    if spans.len() == 0 {
        Seq::empty()
    } else {
        shown_text(spans.drop_last()) + span_of(spans.last()).0
    }
}

/// The links among pieces: the bytes of the text that each covers, and its
/// address.
pub open spec fn links_of(spans: Seq<InlineSpan>) -> Seq<(int, int, Seq<char>)>
    decreases spans.len(),
{
    if spans.len() == 0 {
        Seq::empty()
    } else {
        let above = links_of(spans.drop_last());
        match span_of(spans.last()).1 {
            Some(url) => above.push(
                (
                    encode_utf8(shown_text(spans.drop_last())).len() as int,
                    encode_utf8(shown_text(spans)).len() as int,
                    url,
                ),
            ),
            None => above,
        }
    }
}

/// A task's text as shown, with its links.
pub struct LinkedText {
    pub display: String,
    /// The first byte, the byte behind the last, and the address.
    pub links: Vec<(usize, usize, String)>,
}

/// What the links hold.
pub open spec fn link_views(links: Seq<(usize, usize, String)>) -> Seq<(int, int, Seq<char>)> {
    links.map_values(|l: (usize, usize, String)| (l.0 as int, l.1 as int, l.2@))
}

/// Puts the pieces of a task's text together, and finds where its links are.
pub fn link_text(spans: &[InlineSpan]) -> (out: LinkedText)
    ensures
        out.display@ == shown_text(spans@),
        link_views(out.links@) == links_of(spans@),
{
    let mut display: Vec<char> = Vec::new();
    let mut links: Vec<(usize, usize, String)> = Vec::new();
    let mut i: usize = 0;
    assert(spans@.take(0) =~= Seq::<InlineSpan>::empty());
    assert(link_views(links@) =~= Seq::<(int, int, Seq<char>)>::empty());
    while i < spans.len()
        invariant
            i <= spans@.len(),
            display@ == shown_text(spans@.take(i as int)),
            link_views(links@) == links_of(spans@.take(i as int)),
        decreases spans@.len() - i,
    {
        let ghost links0 = links@;
        let ghost before = display@;
        proof {
            assert(spans@.take(i + 1).drop_last() =~= spans@.take(i as int));
            assert(spans@.take(i + 1).last() == spans@[i as int]);
        }
        match &spans[i] {
            InlineSpan::Text(t) => {
                append_str(&mut display, t.as_str());
            },
            InlineSpan::Link { text, url } => {
                let start: usize = byte_len(display.as_slice());
                append_str(&mut display, text.as_str());
                let end: usize = byte_len(display.as_slice());
                links.push((start, end, url.clone()));
                assert(link_views(links@) =~= link_views(links0).push(
                    (start as int, end as int, url@),
                ));
            },
        }
        i = i + 1;
    }
    assert(spans@.take(spans@.len() as int) =~= spans@);
    LinkedText { display: from_chars(display.as_slice()), links }
}

fn byte_len(s: &[char]) -> (n: usize)
    ensures
        n == encode_utf8(s@).len(),
{
    let text = from_chars(s);
    text.as_str().as_bytes().len()
}

/// What kind of vault a workspace is.
#[derive(Debug, Clone, Copy, PartialEq, Eq, Structural)]
pub enum VaultKind {
    NotAVault,
    Invalid,
    Valid,
}

pub const NO_VAULT_HINT: &'static str = "Open a Thock vault to use the backlog.";

pub const INVALID_HINT: &'static str = "This vault's config couldn't be read, so the backlog is unavailable.";

pub const NO_FILE_HINT: &'static str = "No backlog.md yet — it will be created the first time a task is added.";

pub const EMPTY_HINT: &'static str = "Nothing in the backlog. Wrap skills can move unfinished tasks here.";

/// What the panel says above or in place of its columns.
pub fn body_hint(vault: VaultKind, has_buffer: bool, is_empty: bool) -> (hint: Option<&'static str>)
    ensures
        match hint {
            Some(h) => h@ == (match vault {
                VaultKind::NotAVault => NO_VAULT_HINT@,
                VaultKind::Invalid => INVALID_HINT@,
                VaultKind::Valid => if !has_buffer {
                    NO_FILE_HINT@
                } else {
                    EMPTY_HINT@
                },
            }) && !(vault == VaultKind::Valid && has_buffer && !is_empty),
            None => vault == VaultKind::Valid && has_buffer && !is_empty,
        },
{
    match vault {
        VaultKind::NotAVault => Some(NO_VAULT_HINT),
        VaultKind::Invalid => Some(INVALID_HINT),
        VaultKind::Valid => {
            if !has_buffer {
                Some(NO_FILE_HINT)
            } else if is_empty {
                Some(EMPTY_HINT)
            } else {
                None
            }
        },
    }
}

/// What activating the inbox's row does.
#[derive(Debug, Clone, Copy, PartialEq, Eq, Structural)]
pub enum TriageAction {
    /// Run the ritual.
    RunTriage,
    /// Show the folder.
    OpenInbox,
}

/// What activating the inbox's row does: it runs the triage ritual, or shows
/// the folder in a vault that has none, so that the row is never dead.
pub fn triage_action(skill_ids: &[String]) -> (action: TriageAction)
    ensures
        action == (if strings(skill_ids@).contains("triage-inbox"@) {
            TriageAction::RunTriage
        } else {
            TriageAction::OpenInbox
        }),
{
    if list_holds(skill_ids, "triage-inbox") {
        TriageAction::RunTriage
    } else {
        TriageAction::OpenInbox
    }
}

/// What a rename does to a task's marker: the comment that the text ends with
/// is still its end.
pub proof fn renames_keep_the_marker(original: Seq<char>, edited: Seq<char>)
    ensures
        hidden_suffix(original).len() > 0 ==> crate::text::ends(
            restored(original, edited),
            hidden_suffix(original),
        ),
        hidden_suffix(original).len() == 0 ==> restored(original, edited) == edited,
{
    let hidden = hidden_suffix(original);
    let out = restored(original, edited);
    if hidden.len() > 0 {
        assert(out.subrange(out.len() - hidden.len(), out.len() as int) =~= hidden);
    }
}

/// What opening the backlog's file takes.
#[derive(Debug, Clone, Copy, PartialEq, Eq, Structural)]
pub enum LoadStep {
    Nothing,
    /// Let go of the file, and of a load that is running.
    Forget,
    /// The file is open: only stop a load for another path.
    StopLoading,
    /// Open the file, if it exists.
    Load,
}

impl BacklogPanel {
    /// Takes in where the backlog is now, `None` without a vault, and where the
    /// open file is. Without a vault the panel is emptied.
    pub fn ensure_buffer(&mut self, path: Option<&str>, buffer_path: Option<&str>) -> (step:
        LoadStep)
        ensures
            step == (match path {
                None => if old(self).has_buffer || buffer_path is Some {
                    LoadStep::Forget
                } else {
                    LoadStep::Nothing
                },
                Some(p) => if old(self).has_buffer && buffer_path is Some && buffer_path->0@ == p@ {
                    LoadStep::StopLoading
                } else {
                    LoadStep::Load
                },
            }),
            if step == LoadStep::Forget {
                &&& final(self).backlog.soon@.len() == 0
                &&& final(self).backlog.someday@.len() == 0
                &&& final(self).backlog.completed@.len() == 0
                &&& *final(self) == (BacklogPanel {
                    backlog: final(self).backlog,
                    selected: None,
                    copy_flash: None,
                    edit: None,
                    has_buffer: false,
                    ..*old(self)
                })
            } else {
                *final(self) == *old(self)
            },
    {
        match path {
            None => {
                if !self.has_buffer && buffer_path.is_none() {
                    return LoadStep::Nothing;
                }
                self.backlog =
                Backlog { soon: Vec::new(), someday: Vec::new(), completed: Vec::new() };
                self.selected = None;
                self.copy_flash = None;
                self.edit = None;
                self.has_buffer = false;
                LoadStep::Forget
            },
            Some(p) => {
                let open: bool = match buffer_path {
                    Some(b) => self.has_buffer && same_str(b, p),
                    None => false,
                };
                if open {
                    LoadStep::StopLoading
                } else {
                    LoadStep::Load
                }
            },
        }
    }

    /// The open task under the cursor, which is to be completed.
    pub fn complete_selected_task(&self) -> (found: Option<(SectionKind, &BacklogTask)>)
        ensures
            match found {
                Some((section, task)) => task_under(self.backlog, self.selected) == Some(
                    (section, *task),
                ) && section != SectionKind::Completed,
                None => task_under(self.backlog, self.selected) matches Some(f) ==> f.0
                    == SectionKind::Completed,
            },
    {
        match self.selected_task() {
            Some((section, task)) => if section == SectionKind::Completed {
                None
            } else {
                Some((section, task))
            },
            None => None,
        }
    }

    /// Starts an edit. The result is what the editor starts with, without the
    /// comment that trails it, and what a new task's editor shows while it is
    /// empty.
    pub fn start_edit(&mut self, target: EditTarget, initial_text: &str) -> (editor: (
        String,
        Option<&'static str>,
    ))
        ensures
            editor.0@ == without_comment(initial_text@),
            match editor.1 {
                Some(hint) => target is New && hint@ == "New task"@,
                None => target is Existing,
            },
            *final(self) == (BacklogPanel { edit: Some(target), ..*old(self) }),
    {
        let hint = match &target {
            EditTarget::New { .. } => Some("New task"),
            EditTarget::Existing { .. } => None,
        };
        self.edit = Some(target);
        let text = to_chars(initial_text);
        (from_chars(strip_trailing_comment(text.as_slice())), hint)
    }

    /// Drops an edit. The result is whether there was one; without one, the
    /// focus goes back to the editor.
    pub fn cancel(&mut self) -> (dropped: bool)
        ensures
            dropped == (old(self).edit is Some),
            *final(self) == (BacklogPanel { edit: None, ..*old(self) }),
    {
        self.edit.take().is_some()
    }

    /// Copies the task under the cursor, by the file's own text where it is
    /// found there, and lights its row. The result goes to the clipboard.
    pub fn copy_selected_task(&mut self, from_file: Option<&str>) -> (copied: Option<String>)
        ensures
            match task_under(old(self).backlog, old(self).selected) {
                Some(found) => {
                    &&& copied matches Some(c)
                    &&& c@ == seq!['\n'] + (match from_file {
                        Some(t) => trim_end(t@),
                        None => task_markdown(found.1.text@, found.1.checked),
                    })
                    &&& *final(self) == (BacklogPanel {
                        copy_flash: clamped(old(self).backlog, old(self).selected),
                        ..*old(self)
                    })
                },
                None => copied is None && *final(self) == *old(self),
            },
    {
        let copied = match self.selected_task() {
            Some((_, task)) => copied_markdown(from_file, task.text.as_str(), task.checked),
            None => {
                return None;
            },
        };
        self.copy_flash = self.selection();
        Some(copied)
    }
}

/// What to tell the user once today's note is there for a completed task: where
/// the daily template is missing, the note was created empty.
pub fn note_created(without_template: bool) -> (message: Option<&'static str>)
    ensures
        match message {
            Some(m) => without_template && m@
                == "The daily template is missing, so today's note was created empty."@,
            None => !without_template,
        },
{
    if without_template {
        Some("The daily template is missing, so today's note was created empty.")
    } else {
        None
    }
}

} // verus!
