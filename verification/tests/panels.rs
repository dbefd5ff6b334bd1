use thock::day_planner_panel::{
    block_caption, block_shape, block_tone, chip_shape, format_minutes, grid_hours, grid_lanes,
    item_label, mirror_step, now_line_minutes, planner_hint, reveal_step, selection_after_reparse, BlockTone,
    ChipBorder, ItemState, MirrorStep, Mirrored, RevealStep, Tone,
};
use thock::status_row::{
    calendar_row, format_ago, gmail_row, inbox_row, RowAction, RowPart,
};
use thock::sync::SyncState;

#[test]
fn times_read_as_a_clock() {
    assert_eq!(format_minutes(545), "09:05");
    assert_eq!(block_caption(540, 600), "09:00 – 10:00");
}

#[test]
fn short_blocks_keep_a_minimum_height() {
    // In fifths of a pixel: 48 pixels to the hour, and 18 at least.
    let short = block_shape(600, 605, 480, false, true);
    assert_eq!((short.top, short.height), (480, 90));
    assert!(!short.show_caption);
    let hour = block_shape(600, 660, 480, false, true);
    assert_eq!((hour.top, hour.height, hour.label_lines), (480, 240, 1));
    assert!(hour.show_caption);
}

#[test]
fn finished_blocks_are_quiet() {
    assert_eq!(ItemState::of(true, true), ItemState::Struck);
    assert_eq!(ItemState::of(false, true), ItemState::Done);
    assert!(!ItemState::Open.finished());
    assert_eq!(ItemState::Open.finished_color(), None);
    assert_eq!(ItemState::Struck.finished_color(), Some(Tone::Disabled));
    assert_eq!(block_tone(ItemState::Open, true), BlockTone::Status);
    assert_eq!(block_tone(ItemState::Open, false), BlockTone::Section);
}

#[test]
fn the_grid_covers_its_hours() {
    assert_eq!(grid_hours(480, 660), [8, 9, 10]);
    assert_eq!(now_line_minutes(true, true, 9, 30, 480, 660), Some(570));
    assert_eq!(now_line_minutes(true, false, 9, 30, 480, 660), None);
    assert_eq!(now_line_minutes(true, true, 12, 0, 480, 660), None);
}

#[test]
fn the_planner_mirrors_the_active_note() {
    assert_eq!(
        mirror_step(Mirrored::Nothing, true, false, true, false, false),
        MirrorStep::MirrorEditor
    );
    assert_eq!(selection_after_reparse(Some(2), false), Some(2));
    assert_eq!(selection_after_reparse(Some(2), true), None);
    assert_eq!(planner_hint(false, 0), Some("Open a daily note to see its schedule."));
    assert_eq!(planner_hint(true, 3), None);
}

#[test]
fn ages_are_told_roughly() {
    assert_eq!(format_ago(10), "just now");
    assert_eq!(format_ago(300), "5m ago");
    assert_eq!(format_ago(7200), "2h ago");
}

fn has_connect(row: &Option<Vec<RowPart>>) -> bool {
    row.iter().flatten().any(|part| {
        matches!(part, RowPart::Button { action: RowAction::ConnectWorkspace, .. })
    })
}

#[test]
fn one_row_offers_to_connect() {
    let state = SyncState::NeverConnected;
    assert!(has_connect(&gmail_row(&state, false, 0)));
    assert!(!has_connect(&inbox_row(&state, 0, true)));
    assert!(calendar_row(&SyncState::NoConfig, 0).is_none());
    let row = calendar_row(&SyncState::Synced { at: 100 }, 400).unwrap();
    assert!(!row.is_empty());
}

#[test]
fn chips_carry_their_sections_colour_while_open() {
    let open = chip_shape(ItemState::Open, false, true);
    assert_eq!((open.border, open.ticked, open.struck), (ChipBorder::Section, false, None));
    let done = chip_shape(ItemState::Done, false, true);
    assert_eq!(
        (done.border, done.ticked, done.struck),
        (ChipBorder::Plain, true, Some(Tone::Muted))
    );
    assert_eq!(chip_shape(ItemState::Done, true, true).border, ChipBorder::Selected);
    assert_eq!(chip_shape(ItemState::Open, false, false).border, ChipBorder::Plain);
    assert_eq!(item_label(""), "…");
    assert_eq!(item_label("Call Ana"), "Call Ana");
}

#[test]
fn clicking_an_item_shows_its_row() {
    let rows = [4, 9];
    assert_eq!(reveal_step(Mirrored::Editor, true, &rows, 1), RevealStep::InEditor(9));
    assert_eq!(reveal_step(Mirrored::Editor, false, &rows, 1), RevealStep::Nothing);
    assert_eq!(reveal_step(Mirrored::Background, false, &rows, 0), RevealStep::OpenToday(4));
    assert_eq!(reveal_step(Mirrored::Background, false, &rows, 2), RevealStep::Nothing);
    assert_eq!(reveal_step(Mirrored::Nothing, true, &rows, 0), RevealStep::Nothing);
}

#[test]
fn status_blocks_have_a_lane_of_their_own() {
    let lanes = grid_lanes(&[2, 0, 7, 1, 2], &[false, true, false]);
    assert!(lanes.show_status);
    assert_eq!(lanes.status, [3]);
    assert_eq!(lanes.normal, [0, 1, 4]);
    let plain = grid_lanes(&[0, 1], &[false]);
    assert!(!plain.show_status);
    assert!(plain.status.is_empty());
    assert_eq!(plain.normal, [0]);
}
