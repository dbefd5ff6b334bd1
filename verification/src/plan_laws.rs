//! What holds of the day's plan: where it stands in a note, how its times read,
//! and how its blocks are drawn.

use vstd::prelude::*;
use crate::calendar::{child_section, hashes};
use crate::day_plan::{
    clock, first_row, heading, is_dash, lemma_first_row, lemma_hash_run_is, planner, range_end,
    Section,
};
use crate::day_planner_panel::{block_height, clock_text, fitting_lines, lane_of, shows_caption};
use crate::format::{digit, lemma_two_digits, lowercase, two_digits};
use crate::line_laws::lemma_clock_of;
use crate::settle::tight;
use crate::synced_line::{clear, time_token};
use crate::text::{all_white, is_white, lead, lemma_body_is, lemma_lead_is, trim};

verus! {

/// A heading is one to six number signs with white space, or nothing, behind
/// them; its text is what stands behind that.
#[verifier::spinoff_prover]
#[verifier::rlimit(40)]
pub proof fn headings_are_read(level: nat, text: Seq<char>)
    requires
        tight(text),
    ensures
        heading(hashes(level) + seq![' '] + text) == (if 1 <= level <= 6 {
            Some((level, text))
        } else {
            None
        }),
        heading(hashes(level)) == (if 1 <= level <= 6 {
            Some((level, Seq::<char>::empty()))
        } else {
            None
        }),
        text.len() > 0 && text[0] != '#' ==> heading(hashes(level) + text) is None,
{
    let a = hashes(level) + seq![' '] + text;
    let b = hashes(level);
    let c = hashes(level) + text;
    let none = Seq::<char>::empty();
    let k = level as int;
    assert(a[k] == ' ');
    assert(is_white(' '));
    lemma_hash_run_is(a, k);
    lemma_hash_run_is(b, k);
    let rest = a.skip(k);
    assert(rest =~= seq![' '] + text);
    if text.len() > 0 {
        assert(rest[1] == text[0]);
        lemma_lead_is(rest, 1);
    } else {
        lemma_lead_is(rest, 1);
    }
    assert(rest.skip(1) =~= text);
    lemma_body_is(text, text.len() as int);
    assert(text.take(text.len() as int) =~= text);
    assert(b.skip(k) =~= none);
    lemma_lead_is(none, 0);
    assert(none.skip(0) =~= none);
    lemma_body_is(none, 0);
    assert(none.take(0) =~= none);
    if text.len() > 0 && text[0] != '#' {
        assert(c[k] == text[0]);
        lemma_hash_run_is(c, k);
    }
}

/// The planner section starts below the first heading with its text, letter case
/// aside, and ends at the next heading that is no deeper than that one; deeper
/// ones belong to it.
pub proof fn the_planner_section_is_found(lines: Seq<Seq<char>>, text: Seq<char>)
    ensures
        match planner(lines, text) {
            Some(plan) => {
                let own = heading(lines[plan.start - 1]);
                &&& 1 <= plan.start <= plan.end <= lines.len()
                &&& own is Some && (own->0).0 == plan.level
                &&& lowercase((own->0).1) == lowercase(trim(text))
                &&& forall|r: int|
                    0 <= r < plan.start - 1 ==> (heading(#[trigger] lines[r]) matches Some((_, t))
                        ==> lowercase(t) != lowercase(trim(text)))
                &&& forall|r: int|
                    plan.start <= r < plan.end ==> (heading(#[trigger] lines[r]) matches Some((
                        level,
                        _,
                    )) ==> level > plan.level)
                &&& plan.end < lines.len() ==> (heading(lines[plan.end]) is Some && (heading(
                    lines[plan.end],
                )->0).0 <= plan.level)
            },
            None => forall|r: int|
                0 <= r < lines.len() ==> (heading(#[trigger] lines[r]) matches Some((_, t))
                    ==> lowercase(t) != lowercase(trim(text))),
        },
{
    let n = lines.len() as int;
    let pred = crate::day_plan::titled(text);
    lemma_first_row(lines, pred, 0, n);
    let row = first_row(lines, pred, 0, n);
    assert forall|r: int| 0 <= r < row implies (heading(#[trigger] lines[r]) matches Some((_, t))
        ==> lowercase(t) != lowercase(trim(text))) by {
        assert(!pred(lines[r]));
    }
    if row < n {
        let level = (heading(lines[row])->0).0;
        let stop = crate::day_plan::at_or_above(level);
        lemma_first_row(lines, stop, row + 1, n);
        assert forall|r: int|
            row < r < first_row(lines, stop, row + 1, n) implies (heading(
            #[trigger] lines[r],
        ) matches Some((l, _)) ==> l > level) by {
            assert(!stop(lines[r]));
        }
    }
}

/// The Calendar section of a plan is its first heading of that name exactly one
/// level below the plan's own, up to the next heading that is no deeper.
pub proof fn the_child_section_is_found(lines: Seq<Seq<char>>, plan: Section, name: Seq<char>)
    requires
        0 <= plan.start <= plan.end <= lines.len(),
    ensures
        match child_section(lines, plan, name) {
            Some((from, to)) => {
                let own = heading(lines[from - 1]);
                &&& plan.start < from <= to <= plan.end
                &&& own is Some && (own->0).0 == plan.level + 1
                &&& lowercase((own->0).1) == lowercase(trim(name))
                &&& forall|r: int|
                    plan.start <= r < from - 1 ==> (heading(#[trigger] lines[r]) matches Some((
                        level,
                        t,
                    )) ==> level != plan.level + 1 || lowercase(t) != lowercase(trim(name)))
                &&& forall|r: int|
                    from <= r < to ==> (heading(#[trigger] lines[r]) matches Some((level, _))
                        ==> level > plan.level + 1)
                &&& to < plan.end ==> (heading(lines[to]) is Some && (heading(lines[to])->0).0
                    <= plan.level + 1)
            },
            None => forall|r: int|
                plan.start <= r < plan.end ==> (heading(#[trigger] lines[r]) matches Some((
                    level,
                    t,
                )) ==> level != plan.level + 1 || lowercase(t) != lowercase(trim(name))),
        },
{
    let pred = crate::day_plan::titled_at(name, plan.level + 1);
    lemma_first_row(lines, pred, plan.start, plan.end);
    let row = first_row(lines, pred, plan.start, plan.end);
    assert forall|r: int| plan.start <= r < row implies (heading(#[trigger] lines[r]) matches Some((
        level,
        t,
    )) ==> level != plan.level + 1 || lowercase(t) != lowercase(trim(name))) by {
        assert(!pred(lines[r]));
    }
    if row < plan.end {
        let stop = crate::day_plan::at_or_above(plan.level + 1);
        lemma_first_row(lines, stop, row + 1, plan.end);
        assert forall|r: int|
            row < r < first_row(lines, stop, row + 1, plan.end) implies (heading(
            #[trigger] lines[r],
        ) matches Some((l, _)) ==> l > plan.level + 1) by {
            assert(!stop(lines[r]));
        }
    }
}

/// A clock time is read to the minute: an hour of one digit or two, a colon and
/// two digits below sixty.
pub proof fn clock_times_are_read(h: nat, m: nat, rest: Seq<char>, limit: int)
    requires
        h < 100,
        m < 100,
    ensures
        clock(two_digits(h) + seq![':'] + two_digits(m) + rest, limit) == (if m < 60 && 60 * h + m
            <= limit {
            Some(((60 * h + m) as int, 5int))
        } else {
            None
        }),
        h < 10 ==> clock(seq![digit(h as int), ':'] + two_digits(m) + rest, limit) == (if m < 60
            && 60 * h + m <= limit {
            Some(((60 * h + m) as int, 4int))
        } else {
            None
        }),
{
    lemma_two_digits(h);
    lemma_two_digits(m);
    let s = two_digits(h) + seq![':'] + two_digits(m) + rest;
    assert(s[0] == digit((h / 10) as int));
    assert(s[1] == digit((h % 10) as int));
    assert(s[2] == ':');
    assert(s[3] == digit((m / 10) as int));
    assert(s[4] == digit((m % 10) as int));
    if h < 10 {
        let t = seq![digit(h as int), ':'] + two_digits(m) + rest;
        assert(t[0] == digit(h as int));
        assert(t[1] == ':');
        assert(t[2] == digit((m / 10) as int));
        assert(t[3] == digit((m % 10) as int));
    }
}

/// The two times of a range may have a hyphen, an en dash or an em dash between
/// them, with white space around it or not.
#[verifier::spinoff_prover]
#[verifier::rlimit(40)]
pub proof fn ranges_are_read(
    gap: Seq<char>,
    dash: char,
    space: Seq<char>,
    end: nat,
    rest: Seq<char>,
)
    requires
        all_white(gap),
        all_white(space),
        dash == '-' || dash == '\u{2013}' || dash == '\u{2014}',
        end <= 1440,
    ensures
        range_end(gap + seq![dash] + space + clock_text(end as int) + rest) == Some(
            (end as int, rest),
        ),
{
    let text = clock_text(end as int);
    let all = gap + seq![dash] + space + text + rest;
    let at = gap.len() as int;
    lemma_clock_of(end, rest, 1440);
    lemma_two_digits(end / 60);
    assert(text == two_digits(end / 60) + seq![':'] + two_digits(end % 60));
    assert(all[at] == dash);
    assert(!is_white(dash));
    assert forall|i: int| 0 <= i < at implies is_white(#[trigger] all[i]) by {
        assert(is_white(gap[i]));
    }
    lemma_lead_is(all, at);
    let behind = all.skip(at + 1);
    assert(behind =~= space + text + rest);
    let k = space.len() as int;
    assert(behind[k] == text[0]);
    assert(text[0] == digit((end / 60 / 10) as int));
    assert forall|i: int| 0 <= i < k implies is_white(#[trigger] behind[i]) by {
        assert(is_white(space[i]));
    }
    lemma_lead_is(behind, k);
    let tail = behind.skip(k);
    assert(tail =~= text + rest);
    assert(tail.skip(5) =~= rest);
}

/// A block is as high as its time is long, and never lower than a line of text
/// needs; above a label it shows its times where both have room, and as many
/// lines of the label as fit.
pub proof fn blocks_fit_their_time(minutes: int, status: bool, has_label: bool)
    requires
        0 <= minutes,
    ensures
        block_height(minutes) >= 90,
        block_height(minutes) >= 4 * minutes,
        block_height(minutes) == 90 || block_height(minutes) == 4 * minutes,
        status ==> !shows_caption(minutes, status, has_label),
        !status && !has_label ==> shows_caption(minutes, status, has_label),
        !status && has_label ==> (shows_caption(minutes, status, has_label) <==> 4 * minutes >= 80
            + 90),
        ({
            let caption = if shows_caption(minutes, status, has_label) {
                90int
            } else {
                0int
            };
            80 * (fitting_lines(minutes, status, has_label) + 1) + caption > block_height(minutes)
        }),
        fitting_lines(minutes, status, has_label) >= 1,
{
}

/// A longer time never has a lower block, nor room for fewer lines.
pub proof fn longer_times_have_higher_blocks(a: int, b: int, status: bool)
    requires
        0 <= a <= b,
    ensures
        block_height(a) <= block_height(b),
        fitting_lines(a, true, true) <= fitting_lines(b, true, true),
        shows_caption(a, status, true) ==> shows_caption(b, status, true),
{
}

/// The blocks of a lane keep their order.
pub proof fn lanes_keep_the_order(blocks: Seq<usize>, statuses: Seq<bool>, status: bool)
    ensures
        forall|i: int|
            0 <= i < lane_of(blocks, statuses, status).len() ==> 0 <= #[trigger] lane_of(
                blocks,
                statuses,
                status,
            )[i] < blocks.len(),
        forall|i: int, j: int|
            0 <= i < j < lane_of(blocks, statuses, status).len() ==> #[trigger] lane_of(
                blocks,
                statuses,
                status,
            )[i] < #[trigger] lane_of(blocks, statuses, status)[j],
    decreases blocks.len(),
{
    if blocks.len() > 0 {
        let rest = blocks.drop_last();
        lanes_keep_the_order(rest, statuses, status);
        let above = lane_of(rest, statuses, status);
        let all = lane_of(blocks, statuses, status);
        assert(all == above || all == above.push(blocks.len() - 1));
        assert forall|i: int| 0 <= i < all.len() implies 0 <= #[trigger] all[i]
            < blocks.len() by {
            if i < above.len() {
                assert(all[i] == above[i]);
            }
        }
        assert forall|i: int, j: int| 0 <= i < j < all.len() implies #[trigger] all[i]
            < #[trigger] all[j] by {
            assert(all[i] == above[i]);
            if j < above.len() {
                assert(all[j] == above[j]);
            }
        }
    }
}

/// A line's time is read to the minute: a start alone, or a range with any dash in
/// it, with white space or nothing behind it.
#[verifier::spinoff_prover]
#[verifier::rlimit(40)]
pub proof fn times_of_lines_are_read(
    start: nat,
    gap: Seq<char>,
    dash: char,
    space: Seq<char>,
    end: nat,
    rest: Seq<char>,
    title: Seq<char>,
)
    requires
        start < 1440,
        end <= 1440,
        all_white(gap),
        all_white(space),
        dash == '-' || dash == '\u{2013}' || dash == '\u{2014}',
        clear(rest),
        title.len() > 0 && !is_white(title[0]) && !is_dash(title[0]),
    ensures
        time_token(clock_text(start as int)) == Some((start as int, 5int)),
        time_token(clock_text(start as int) + seq![' '] + title) == Some((start as int, 5int)),
        time_token(
            clock_text(start as int) + gap + seq![dash] + space + clock_text(end as int) + rest,
        ) == Some((start as int, 11int + gap.len() + space.len())),
        time_token(clock_text(start as int) + title) is None,
{
    reveal(time_token);
    let none = Seq::<char>::empty();
    let t = clock_text(start as int);
    lemma_two_digits(start / 60);
    lemma_two_digits(start % 60);
    assert(t == two_digits(start / 60) + seq![':'] + two_digits(start % 60));
    assert(t.len() == 5);
    assert(is_white(' '));
    // The start alone.
    lemma_clock_of(start, none, 1439);
    assert(t + none =~= t);
    assert(t.skip(5) =~= none);
    assert(lead(none) == 0);
    // A title behind it.
    let b = seq![' '] + title;
    lemma_clock_of(start, b, 1439);
    assert(t + b =~= t + seq![' '] + title);
    assert((t + b).skip(5) =~= b);
    assert(b[1] == title[0]);
    lemma_lead_is(b, 1);
    // A range.
    let e = clock_text(end as int);
    lemma_two_digits(end / 60);
    lemma_two_digits(end % 60);
    assert(e == two_digits(end / 60) + seq![':'] + two_digits(end % 60));
    let r = gap + seq![dash] + space + e + rest;
    lemma_clock_of(start, r, 1439);
    assert(t + r =~= t + gap + seq![dash] + space + e + rest);
    assert((t + r).skip(5) =~= r);
    ranges_are_read(gap, dash, space, end, rest);
    // No white space behind it.
    lemma_clock_of(start, title, 1439);
    assert((t + title).skip(5) =~= title);
    lemma_lead_is(title, 0);
}

} // verus!
