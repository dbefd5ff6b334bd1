//! The day planner panel's decisions: which note it mirrors, how items and
//! blocks look, and where the hours and the now line lie.

use vstd::prelude::*;
use crate::format::{append_two_digits, two_digits};
use crate::text::{append_str, from_chars, own, to_chars};

verus! {

/// How a plan item reads. A struck item is finished the same way a ticked one
/// is, but stays distinguishable from it.
#[derive(Debug, Clone, Copy, PartialEq, Eq, Structural)]
pub enum ItemState {
    Open,
    Done,
    Struck,
}

/// A muted tone of the theme.
#[derive(Debug, Clone, Copy, PartialEq, Eq, Structural)]
pub enum Tone {
    Muted,
    Disabled,
}

impl ItemState {
    /// The state of an item.
    pub fn of(struck: bool, done: bool) -> (state: Self)
        ensures
            state == (if struck {
                ItemState::Struck
            } else if done {
                ItemState::Done
            } else {
                ItemState::Open
            }),
    {
        match (struck, done) {
            (true, _) => ItemState::Struck,
            (false, true) => ItemState::Done,
            (false, false) => ItemState::Open,
        }
    }

    /// Whether the item is finished.
    pub fn finished(self) -> (yes: bool)
        ensures
            yes == (self != ItemState::Open),
    {
        self != ItemState::Open
    }

    /// The tone of a finished item's label and icon.
    pub fn finished_color(self) -> (tone: Option<Tone>)
        ensures
            tone == (match self {
                ItemState::Open => None,
                ItemState::Done => Some(Tone::Muted),
                ItemState::Struck => Some(Tone::Disabled),
            }),
    {
        match self {
            ItemState::Open => None,
            ItemState::Done => Some(Tone::Muted),
            ItemState::Struck => Some(Tone::Disabled),
        }
    }
}

/// A time of day, with two digits each.
pub open spec fn clock_text(minutes: int) -> Seq<char> {
    two_digits((minutes / 60) as nat) + seq![':'] + two_digits((minutes % 60) as nat)
}

fn append_clock(out: &mut Vec<char>, minutes: u32)
    ensures
        final(out)@ == old(out)@ + clock_text(minutes as int),
{
    append_two_digits(out, (minutes / 60) as u64);
    out.push(':');
    append_two_digits(out, (minutes % 60) as u64);
    assert(out@ =~= old(out)@ + clock_text(minutes as int));
}

/// A time of day, as hours and minutes.
pub fn format_minutes(minutes: u32) -> (text: String)
    ensures
        text@ == clock_text(minutes as int),
{
    let mut out: Vec<char> = Vec::new();
    append_clock(&mut out, minutes);
    assert(out@ =~= clock_text(minutes as int));
    from_chars(out.as_slice())
}

/// The caption of a block: when it begins and ends.
pub fn block_caption(start_min: u32, end_min: u32) -> (text: String)
    ensures
        text@ == clock_text(start_min as int) + " – "@ + clock_text(end_min as int),
{
    let mut out: Vec<char> = Vec::new();
    append_clock(&mut out, start_min);
    append_str(&mut out, " – ");
    append_clock(&mut out, end_min);
    assert(out@ =~= clock_text(start_min as int) + " – "@ + clock_text(end_min as int));
    from_chars(out.as_slice())
}

/// The minutes that the shortest block shown stands for: 18 pixels, at 48
/// pixels an hour, rounded up.
pub const MIN_VISUAL_MINUTES: u32 = 23;

/// How a block is laid out. Lengths are in fifths of a pixel: an hour is 48
/// pixels high, so a minute is four fifths.
#[derive(Debug, Clone, Copy, PartialEq, Eq, Structural)]
pub struct BlockShape {
    pub top: u64,
    pub height: u64,
    pub show_caption: bool,
    /// The lines of label text that fit.
    pub label_lines: u64,
}

/// The height of a block, in fifths of a pixel: never below 18 pixels.
pub open spec fn block_height(minutes: int) -> int {
    if 4 * minutes < 90 {
        90
    } else {
        4 * minutes
    }
}

/// Whether a block shows its caption: the label wins where there is no room for
/// both, 18 pixels for the caption and 16 for a line of label. The status lane
/// is too narrow for a caption at any height.
pub open spec fn shows_caption(minutes: int, status: bool, has_label: bool) -> bool {
    !status && (!has_label || block_height(minutes) >= 170)
}

/// The lines of label text that fit in a block, at least one.
pub open spec fn fitting_lines(minutes: int, status: bool, has_label: bool) -> int {
    let room = if shows_caption(minutes, status, has_label) {
        block_height(minutes) - 90
    } else {
        block_height(minutes)
    };
    if room / 80 < 1 {
        1
    } else {
        room / 80
    }
}

/// How a block is laid out in a grid.
pub fn block_shape(
    start_min: u32,
    end_min: u32,
    grid_start: u32,
    status: bool,
    has_label: bool,
) -> (shape: BlockShape)
    requires
        start_min <= end_min,
    ensures
        shape.top == (if start_min > grid_start {
            4 * (start_min - grid_start)
        } else {
            0
        }),
        shape.height == block_height(end_min - start_min),
        shape.show_caption == shows_caption(end_min - start_min, status, has_label),
        shape.label_lines == fitting_lines(end_min - start_min, status, has_label),
{
    let top: u64 = if start_min > grid_start {
        4 * ((start_min - grid_start) as u64)
    } else {
        0
    };
    let natural: u64 = 4 * ((end_min - start_min) as u64);
    let height: u64 = if natural < 90 {
        90
    } else {
        natural
    };
    let show_caption: bool = !status && (!has_label || height >= 170);
    let room: u64 = if show_caption {
        height - 90
    } else {
        height
    };
    let label_lines: u64 = if room / 80 < 1 {
        1
    } else {
        room / 80
    };
    BlockShape { top, height, show_caption, label_lines }
}

/// The text of a block fits: what the label and the caption take is no higher
/// than the block, unless not even one line of label fits.
pub proof fn block_texts_fit(minutes: int, status: bool, has_label: bool)
    requires
        0 <= minutes,
    ensures
        ({
            let lines = fitting_lines(minutes, status, has_label);
            let caption = if shows_caption(minutes, status, has_label) {
                90int
            } else {
                0int
            };
            lines > 1 ==> 80 * lines + caption <= block_height(minutes)
        }),
        has_label && shows_caption(minutes, status, has_label) ==> 80 * fitting_lines(
            minutes,
            status,
            has_label,
        ) + 90 <= block_height(minutes),
{
}

/// The tone of a block's fill and border.
#[derive(Debug, Clone, Copy, PartialEq, Eq, Structural)]
pub enum BlockTone {
    /// Background, whatever its section.
    Status,
    /// The hue of its section, else the accent.
    Section,
    Done,
    Struck,
}

/// The tone of a block.
pub fn block_tone(state: ItemState, status: bool) -> (tone: BlockTone)
    ensures
        tone == (if status {
            BlockTone::Status
        } else {
            match state {
                ItemState::Open => BlockTone::Section,
                ItemState::Done => BlockTone::Done,
                ItemState::Struck => BlockTone::Struck,
            }
        }),
{
    if status {
        return BlockTone::Status;
    }
    match state {
        ItemState::Open => BlockTone::Section,
        ItemState::Done => BlockTone::Done,
        ItemState::Struck => BlockTone::Struck,
    }
}

/// The hours that a grid draws a line for: from its start to its end, without
/// the last.
pub fn grid_hours(grid_start: u32, grid_end: u32) -> (hours: Vec<u32>)
    ensures
        forall|i: int| 0 <= i < hours@.len() ==> #[trigger] hours@[i] == grid_start / 60 + i,
        hours@.len() == (if grid_end / 60 > grid_start / 60 {
            grid_end / 60 - grid_start / 60
        } else {
            0
        }),
{
    let first: u32 = grid_start / 60;
    let last: u32 = grid_end / 60;
    let mut hours: Vec<u32> = Vec::new();
    let mut hour: u32 = first;
    while hour < last
        invariant
            first == grid_start / 60,
            last == grid_end / 60,
            first <= hour,
            hour <= last || hour == first,
            hours@.len() == hour - first,
            forall|i: int| 0 <= i < hours@.len() ==> #[trigger] hours@[i] == first + i,
        decreases last - hour,
    {
        hours.push(hour);
        hour = hour + 1;
    }
    hours
}

/// The minutes since midnight of the now line, where it is drawn: only on
/// today's note, only when enabled, and only within the grid.
pub fn now_line_minutes(
    enabled: bool,
    is_today: bool,
    hour: u32,
    minute: u32,
    grid_start: u32,
    grid_end: u32,
) -> (at: Option<u32>)
    requires
        hour < 24,
        minute < 60,
    ensures
        at == (if enabled && is_today && grid_start <= hour * 60 + minute <= grid_end {
            Some((hour * 60 + minute) as u32)
        } else {
            None
        }),
{
    if !enabled || !is_today {
        return None;
    }
    let now: u32 = hour * 60 + minute;
    if grid_start <= now && now <= grid_end {
        Some(now)
    } else {
        None
    }
}

/// What the panel mirrors now.
#[derive(Debug, Clone, Copy, PartialEq, Eq, Structural)]
pub enum Mirrored {
    Nothing,
    /// An editor on a daily note.
    Editor,
    /// Today's note, opened in the background.
    Background,
}

/// What the panel does about the note it mirrors.
#[derive(Debug, Clone, Copy, PartialEq, Eq, Structural)]
pub enum MirrorStep {
    Keep,
    /// The same note, read again.
    Reparse,
    /// Mirror the active editor.
    MirrorEditor,
    /// Open today's note in the background, and mirror it.
    OpenToday,
    /// Mirror nothing.
    Clear,
}

/// What the panel does about the note it mirrors: an active daily note wins,
/// else today's note. `same` says whether it mirrors that very note already,
/// and `force` whether to read it again even so.
pub fn mirror_step(
    mirrored: Mirrored,
    active_daily_note: bool,
    same: bool,
    has_vault: bool,
    note_in_project: bool,
    force: bool,
) -> (step: MirrorStep)
    ensures
        step == (if active_daily_note {
            if mirrored == Mirrored::Editor && same {
                if force {
                    MirrorStep::Reparse
                } else {
                    MirrorStep::Keep
                }
            } else {
                MirrorStep::MirrorEditor
            }
        } else if has_vault && mirrored == Mirrored::Background && same {
            if force {
                MirrorStep::Reparse
            } else {
                MirrorStep::Keep
            }
        } else if has_vault && note_in_project {
            MirrorStep::OpenToday
        } else if mirrored == Mirrored::Nothing {
            MirrorStep::Keep
        } else {
            MirrorStep::Clear
        }),
{
    let settled: MirrorStep = if force {
        MirrorStep::Reparse
    } else {
        MirrorStep::Keep
    };
    if active_daily_note {
        if mirrored == Mirrored::Editor && same {
            return settled;
        }
        return MirrorStep::MirrorEditor;
    }
    if has_vault {
        if mirrored == Mirrored::Background && same {
            return settled;
        }
        if note_in_project {
            return MirrorStep::OpenToday;
        }
    }
    if mirrored == Mirrored::Nothing {
        MirrorStep::Keep
    } else {
        MirrorStep::Clear
    }
}

/// The item that stays selected when the note is read again: none where the
/// plan changed, as a stale selection would outline the wrong block.
pub fn selection_after_reparse(selected: Option<usize>, plan_changed: bool) -> (next: Option<usize>)
    ensures
        next == (if plan_changed {
            None
        } else {
            selected
        }),
{
    if plan_changed {
        None
    } else {
        selected
    }
}

/// What the panel says in place of a plan.
pub fn planner_hint(has_note: bool, items: usize) -> (hint: Option<&'static str>)
    ensures
        match hint {
            Some(h) => if has_note {
                items == 0 && h@ == NO_TASKS_HINT@
            } else {
                h@ == NO_NOTE_HINT@
            },
            None => has_note && items > 0,
        },
{
    if !has_note {
        return Some(NO_NOTE_HINT);
    }
    if items == 0 {
        return Some(NO_TASKS_HINT);
    }
    None
}

pub const NO_NOTE_HINT: &'static str = "Open a daily note to see its schedule.";

pub const NO_TASKS_HINT: &'static str = "No tasks yet. Add `- [ ] 09:00 – 10:00 Task` under your Day planner heading.";

/// The border of a chip.
#[derive(Debug, Clone, Copy, PartialEq, Eq, Structural)]
pub enum ChipBorder {
    Selected,
    /// The colour of its section, so that chips and blocks read as one group.
    Section,
    Plain,
}

/// What a chip for an item without a time shows.
#[derive(Debug, Clone, Copy, PartialEq, Eq, Structural)]
pub struct ChipShape {
    pub border: ChipBorder,
    /// Whether its icon is ticked.
    pub ticked: bool,
    /// The tone of a label that is struck through.
    pub struck: Option<Tone>,
}

/// What a chip shows. Only an open item has its section's colour.
pub fn chip_shape(state: ItemState, selected: bool, has_section_color: bool) -> (shape: ChipShape)
    ensures
        shape.border == (if selected {
            ChipBorder::Selected
        } else if state == ItemState::Open && has_section_color {
            ChipBorder::Section
        } else {
            ChipBorder::Plain
        }),
        shape.ticked == (state != ItemState::Open),
        shape.struck == (match state {
            ItemState::Open => None,
            ItemState::Done => Some(Tone::Muted),
            ItemState::Struck => Some(Tone::Disabled),
        }),
{
    let border = if selected {
        ChipBorder::Selected
    } else if !state.finished() && has_section_color {
        ChipBorder::Section
    } else {
        ChipBorder::Plain
    };
    ChipShape { border, ticked: state.finished(), struck: state.finished_color() }
}

/// The text of an item: one without a label has a placeholder.
pub fn item_label(label: &str) -> (text: String)
    ensures
        text@ == (if label@.len() == 0 {
            "…"@
        } else {
            label@
        }),
{
    if to_chars(label).len() == 0 {
        own("…")
    } else {
        own(label)
    }
}

/// What clicking an item does.
#[derive(Debug, Clone, Copy, PartialEq, Eq, Structural)]
pub enum RevealStep {
    Nothing,
    /// Show the row in the editor that is mirrored.
    InEditor(u32),
    /// Open today's note, and show the row there.
    OpenToday(u32),
}

/// What clicking an item does: it shows the item's row, if the item is still
/// there and so is the editor.
pub fn reveal_step(mirrored: Mirrored, editor_alive: bool, rows: &[u32], item: usize) -> (step:
    RevealStep)
    ensures
        step == (if item >= rows@.len() {
            RevealStep::Nothing
        } else {
            match mirrored {
                Mirrored::Nothing => RevealStep::Nothing,
                Mirrored::Editor => if editor_alive {
                    RevealStep::InEditor(rows@[item as int])
                } else {
                    RevealStep::Nothing
                },
                Mirrored::Background => RevealStep::OpenToday(rows@[item as int]),
            }
        }),
{
    if item >= rows.len() {
        return RevealStep::Nothing;
    }
    match mirrored {
        Mirrored::Nothing => RevealStep::Nothing,
        Mirrored::Editor => if editor_alive {
            RevealStep::InEditor(rows[item])
        } else {
            RevealStep::Nothing
        },
        Mirrored::Background => RevealStep::OpenToday(rows[item]),
    }
}

/// The blocks of a day's grid, by their places: status blocks have a narrow lane
/// of their own, so that the day's real blocks lay out as if they were not
/// there.
#[derive(Debug, Clone, PartialEq)]
pub struct GridLanes {
    /// Whether the lane for status blocks is shown.
    pub show_status: bool,
    pub status: Vec<usize>,
    pub normal: Vec<usize>,
}

/// The places of the blocks whose item has the given weight, in order. A block
/// of an item that is not there is in no lane.
pub open spec fn lane_of(blocks: Seq<usize>, statuses: Seq<bool>, status: bool) -> Seq<int>
    decreases blocks.len(),
{
    if blocks.len() == 0 {
        Seq::empty()
    } else {
        let above = lane_of(blocks.drop_last(), statuses, status);
        let item = blocks.last() as int;
        if item < statuses.len() && statuses[item] == status {
            above.push(blocks.len() - 1)
        } else {
            above
        }
    }
}

/// The places, as integers.
pub open spec fn block_places(places: Seq<usize>) -> Seq<int> {
    places.map_values(|p: usize| p as int)
}

/// Puts the blocks of a grid, each given by the place of its item, into their
/// lanes; `statuses` says of each item whether it is a status.
pub fn grid_lanes(blocks: &[usize], statuses: &[bool]) -> (lanes: GridLanes)
    ensures
        block_places(lanes.status@) == lane_of(blocks@, statuses@, true),
        block_places(lanes.normal@) == lane_of(blocks@, statuses@, false),
        lanes.show_status == (lane_of(blocks@, statuses@, true).len() > 0),
{
    let mut status: Vec<usize> = Vec::new();
    let mut normal: Vec<usize> = Vec::new();
    let mut i: usize = 0;
    assert(blocks@.take(0) =~= Seq::<usize>::empty());
    assert(block_places(status@) =~= Seq::<int>::empty());
    assert(block_places(normal@) =~= Seq::<int>::empty());
    while i < blocks.len()
        invariant
            i <= blocks@.len(),
            block_places(status@) == lane_of(blocks@.take(i as int), statuses@, true),
            block_places(normal@) == lane_of(blocks@.take(i as int), statuses@, false),
        decreases blocks@.len() - i,
    {
        assert(blocks@.take(i + 1).drop_last() =~= blocks@.take(i as int));
        assert(blocks@.take(i + 1).last() == blocks@[i as int]);
        let item: usize = blocks[i];
        if item < statuses.len() {
            if statuses[item] {
                let ghost before = status@;
                status.push(i);
                assert(block_places(status@) =~= block_places(before).push(i as int));
            } else {
                let ghost before = normal@;
                normal.push(i);
                assert(block_places(normal@) =~= block_places(before).push(i as int));
            }
        }
        i = i + 1;
    }
    assert(blocks@.take(blocks@.len() as int) =~= blocks@);
    assert(block_places(status@).len() == status@.len());
    GridLanes { show_status: status.len() > 0, status, normal }
}

/// Every block of an item that is there is in exactly one lane.
pub proof fn every_block_has_one_lane(blocks: Seq<usize>, statuses: Seq<bool>, at: int)
    requires
        0 <= at < blocks.len(),
    ensures
        lane_of(blocks, statuses, true).contains(at) == (blocks[at] < statuses.len()
            && statuses[blocks[at] as int]),
        lane_of(blocks, statuses, false).contains(at) == (blocks[at] < statuses.len()
            && !statuses[blocks[at] as int]),
{
    lemma_lane(blocks, statuses, true, at);
    lemma_lane(blocks, statuses, false, at);
}

proof fn lemma_lane(blocks: Seq<usize>, statuses: Seq<bool>, status: bool, at: int)
    requires
        0 <= at,
    ensures
        lane_of(blocks, statuses, status).contains(at) == (at < blocks.len() && blocks[at]
            < statuses.len() && statuses[blocks[at] as int] == status),
    decreases blocks.len(),
{
    if blocks.len() > 0 {
        let rest = blocks.drop_last();
        let above = lane_of(rest, statuses, status);
        let all = lane_of(blocks, statuses, status);
        lemma_lane(rest, statuses, status, at);
        if at < rest.len() {
            assert(rest[at] == blocks[at]);
        }
        if all != above {
            assert(all == above.push(blocks.len() - 1));
            if above.contains(at) {
                let k = choose|k: int| 0 <= k < above.len() && above[k] == at;
                assert(all[k] == at);
            }
            if at == blocks.len() - 1 {
                assert(all[all.len() - 1] == at);
            }
            if all.contains(at) && at != blocks.len() - 1 {
                let k = choose|k: int| 0 <= k < all.len() && all[k] == at;
                assert(above[k] == at);
            }
        }
    }
}

} // verus!
