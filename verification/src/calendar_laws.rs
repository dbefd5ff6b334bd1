//! What holds of the reconciler as a whole.

use vstd::prelude::*;
use crate::calendar::{
    child_section, cleaned, event_lines, has_id, hashes, insert_at, inserts_at, is_blank,
    lemma_normal_ids, normal, past_content, section_block, CalendarEvent, Edit, LineEdit,
};
use crate::clean::lemma_one_line;
use crate::day_plan::{
    at_or_above, first_row, heading, lemma_first_row, lemma_first_row_is, lemma_hash_run_is,
    planner, titled, titled_at, Section,
};
use crate::edit_laws::{
    lemma_block, lemma_concat_edits, lemma_edited, lemma_first_row_same, lemma_heading_cr,
    lemma_sorted_edits, lemma_sorted_within, lemma_synced_cr, lemma_synced_no_heading,
    lemma_untouched, mid, within,
};
use crate::format::is_hex;
use crate::line_laws::mark;
use crate::lines::{
    lemma_last_line, lemma_lines_of_ended, lemma_lines_of_joined, lemma_lines_single, lines,
    single_lines, strip_cr,
};
use crate::reconcile::{
    additions, cancels, carries, changes, edited, edited_note, fresh, inserted, line_row, outcome,
    renames, rewritten, section_edits, section_name, slot,
};
use crate::settle::{
    lemma_cancelled_line, lemma_event_line, lemma_parts, lemma_update_settles, settled, tight,
    valid_event,
};
use crate::sort::{
    ascending, lemma_sorted_ascending, lemma_sorted_keeps, lemma_sorted_members, sorted,
};
use crate::synced_line::{
    all_hex, bare, cancelled, content, event_line, event_token, lemma_synced, marker, named_text,
    own_words, plain, suffix_of, synced, token_len, token_of, trailing_of, untimed, Event,
    EventKind,
};
use crate::text::{is_white, lead, lemma_body, lemma_lead, lemma_lead_is, trim, trim_end};

verus! {

/// Whether a text holds no line feed.
pub open spec fn no_feed(s: Seq<char>) -> bool {
    forall|i: int| 0 <= i < s.len() ==> #[trigger] s[i] != '\n'
}

/// Whether events can be written: each can stand in a note, with a clean title
/// and an id of its own.
pub open spec fn writable(n: Seq<Event>) -> bool {
    &&& forall|i: int|
        0 <= i < n.len() ==> valid_event(#[trigger] n[i]) && tight(n[i].title) && no_feed(
            n[i].title,
        )
    &&& forall|i: int, j: int| 0 <= i < j < n.len() ==> (#[trigger] n[i]).id != (#[trigger] n[j]).id
}

/// Normalized events can be written.
pub proof fn lemma_normal_writable(events: Seq<Event>)
    requires
        forall|i: int| 0 <= i < events.len() ==> valid_event(#[trigger] events[i]),
    ensures
        writable(normal(events)),
    decreases events.len(),
{
    if events.len() > 0 {
        let rest = events.drop_last();
        assert forall|i: int| 0 <= i < rest.len() implies valid_event(#[trigger] rest[i]) by {
            assert(events[i] == rest[i]);
        }
        lemma_normal_writable(rest);
        let n = normal(rest);
        let x = events.last();
        if !has_id(rest, x.id) {
            lemma_normal_ids(rest, x.id);
            lemma_one_line(crate::clean::scrubbed(x.title, "<!--"@));
            assert(valid_event(events[events.len() - 1]));
            let all = n.push(cleaned(x));
            assert forall|i: int| 0 <= i < all.len() implies valid_event(#[trigger] all[i])
                && tight(all[i].title) && no_feed(all[i].title) by {
                if i < n.len() {
                    assert(all[i] == n[i]);
                }
            }
            assert forall|i: int, j: int| 0 <= i < j < all.len() implies (#[trigger] all[i]).id
                != (#[trigger] all[j]).id by {
                assert(all[i] == n[i]);
                if j < n.len() {
                    assert(all[j] == n[j]);
                } else if all[i].id == all[j].id {
                    assert(n[i].id == x.id);
                    assert(has_id(n, x.id));
                }
            }
        }
    }
}

/// All edits of a section, before they are ordered.
pub open spec fn raw_edits(
    lines: Seq<Seq<char>>,
    from: int,
    to: int,
    n: Seq<Event>,
) -> Seq<Edit> {
    changes(lines, from, to, n) + cancels(lines, from, to, n) + additions(
        lines,
        from,
        to,
        sorted::<CalendarEvent>(fresh(lines, from, to, n)),
    )
}

/// The row of an event's line lies in the section or at its end, and a line
/// found there carries the id.
pub proof fn lemma_line_row(lines: Seq<Seq<char>>, from: int, to: int, id: Seq<char>)
    requires
        from <= to,
    ensures
        from <= line_row(lines, from, to, id) <= to,
        line_row(lines, from, to, id) < to ==> carries(id)(lines[line_row(lines, from, to, id)]),
        forall|r: int|
            from <= r < line_row(lines, from, to, id) ==> !carries(id)(#[trigger] lines[r]),
{
    lemma_first_row(lines, carries(id), from, to);
}

/// What the rewrites for events leave in a row.
proof fn lemma_changes(lines: Seq<Seq<char>>, from: int, to: int, n: Seq<Event>, r: int)
    requires
        0 <= from <= r < to <= lines.len(),
        forall|i: int, j: int| 0 <= i < j < n.len() ==> (#[trigger] n[i]).id != (#[trigger] n[j]).id,
    ensures
        forall|i: int|
            0 <= i < n.len() && line_row(lines, from, to, (#[trigger] n[i]).id) == r ==> rewritten(
                changes(lines, from, to, n),
                r,
                lines[r],
            ) == (match (synced(lines[r])->0).update(n[i]) {
                Some(t) => t,
                None => lines[r],
            }),
        (forall|i: int| 0 <= i < n.len() ==> line_row(lines, from, to, (#[trigger] n[i]).id) != r)
            ==> rewritten(changes(lines, from, to, n), r, lines[r]) == lines[r],
    decreases n.len(),
{
    if n.len() > 0 {
        let rest = n.drop_last();
        let x = n.last();
        assert forall|i: int, j: int| 0 <= i < j < rest.len() implies (#[trigger] rest[i]).id
            != (#[trigger] rest[j]).id by {
            assert(rest[i] == n[i] && rest[j] == n[j]);
        }
        lemma_changes(lines, from, to, rest, r);
        let c = changes(lines, from, to, rest);
        let row = line_row(lines, from, to, x.id);
        lemma_line_row(lines, from, to, x.id);
        let all = changes(lines, from, to, n);
        if all != c {
            assert(all.drop_last() =~= c);
        }
        if row == r {
            assert forall|i: int| 0 <= i < rest.len() implies line_row(
                lines,
                from,
                to,
                (#[trigger] rest[i]).id,
            ) != r by {
                lemma_line_row(lines, from, to, rest[i].id);
                assert(n[i].id != n[n.len() - 1].id);
                assert(rest[i] == n[i]);
            }
            assert(rewritten(c, r, lines[r]) == lines[r]);
            assert forall|i: int|
                0 <= i < n.len() && line_row(lines, from, to, (#[trigger] n[i]).id)
                    == r implies rewritten(all, r, lines[r]) == (match (synced(
                lines[r],
            )->0).update(n[i]) {
                Some(t) => t,
                None => lines[r],
            }) by {
                if i < rest.len() {
                    assert(rest[i] == n[i]);
                }
            }
            assert(n[n.len() - 1] == x);
        } else {
            assert(rewritten(all, r, lines[r]) == rewritten(c, r, lines[r]));
            assert forall|i: int|
                0 <= i < n.len() && line_row(lines, from, to, (#[trigger] n[i]).id)
                    == r implies rewritten(all, r, lines[r]) == (match (synced(
                lines[r],
            )->0).update(n[i]) {
                Some(t) => t,
                None => lines[r],
            }) by {
                assert(i < rest.len());
                assert(rest[i] == n[i]);
            }
            if forall|i: int|
                0 <= i < n.len() ==> line_row(lines, from, to, (#[trigger] n[i]).id) != r {
                assert forall|i: int| 0 <= i < rest.len() implies line_row(
                    lines,
                    from,
                    to,
                    (#[trigger] rest[i]).id,
                ) != r by {
                    assert(rest[i] == n[i]);
                }
            }
        }
    }
}

/// The rewrites for events lie in the section.
pub proof fn lemma_changes_within(lines: Seq<Seq<char>>, from: int, to: int, n: Seq<Event>)
    requires
        from <= to,
    ensures
        within(changes(lines, from, to, n), from, to),
        forall|i: int|
            0 <= i < changes(lines, from, to, n).len() ==> (#[trigger] changes(
                lines,
                from,
                to,
                n,
            )[i]).replaces,
    decreases n.len(),
{
    if n.len() > 0 {
        lemma_changes_within(lines, from, to, n.drop_last());
        lemma_line_row(lines, from, to, n.last().id);
        let c = changes(lines, from, to, n.drop_last());
        let all = changes(lines, from, to, n);
        assert forall|i: int| 0 <= i < all.len() implies from <= (#[trigger] all[i]).row <= to && (
        all[i].replaces ==> all[i].row < to) && all[i].replaces by {
            if i < c.len() {
                assert(all[i] == c[i]);
            }
        }
    }
}

/// What the cancellation marks leave in a row, and where they lie.
pub proof fn lemma_cancels(
    lines: Seq<Seq<char>>,
    from: int,
    to: int,
    n: Seq<Event>,
    r: int,
    line: Seq<char>,
)
    requires
        0 <= from <= to <= lines.len(),
    ensures
        within(cancels(lines, from, to, n), from, to),
        forall|i: int|
            0 <= i < cancels(lines, from, to, n).len() ==> (#[trigger] cancels(
                lines,
                from,
                to,
                n,
            )[i]).replaces,
        rewritten(cancels(lines, from, to, n), r, line) == (if from <= r < to && synced(
            lines[r],
        ) is Some && !has_id(n, (synced(lines[r])->0).id) && cancelled(
            (synced(lines[r])->0).words(),
        ) is None {
            (synced(lines[r])->0).cancelled_line()
        } else {
            line
        }),
    decreases to - from,
{
    if from < to {
        lemma_cancels(lines, from, to - 1, n, r, line);
        let c = cancels(lines, from, to - 1, n);
        let all = cancels(lines, from, to, n);
        if all != c {
            assert(all.drop_last() =~= c);
        }
        assert forall|i: int| 0 <= i < all.len() implies from <= (#[trigger] all[i]).row <= to && (
        all[i].replaces ==> all[i].row < to) && all[i].replaces by {
            if i < c.len() {
                assert(all[i] == c[i]);
            }
        }
        if r == to - 1 {
            lemma_untouched(c, from, to - 1, r, line);
        }
    }
}

/// The slot of an event lies in the section or at its end.
pub proof fn lemma_slot(lines: Seq<Seq<char>>, from: int, to: int, time: Option<(u32, u32)>)
    requires
        from <= to,
    ensures
        from <= slot(lines, from, to, time) <= to,
{
    lemma_first_row(lines, crate::reconcile::later(crate::calendar::start_of(time)), from, to);
    lemma_past_content(lines, from, to);
}

pub proof fn lemma_past_content(lines: Seq<Seq<char>>, from: int, to: int)
    requires
        from <= to,
    ensures
        from <= past_content(lines, from, to) <= to,
    decreases to - from,
{
    if from < to && is_blank(lines[to - 1]) {
        lemma_past_content(lines, from, to - 1);
    }
}

/// What the new lines are, where they lie, and that each is there.
pub proof fn lemma_additions(lines: Seq<Seq<char>>, from: int, to: int, evs: Seq<Event>, row: int)
    requires
        from <= to,
    ensures
        within(additions(lines, from, to, evs), from, to),
        forall|i: int|
            0 <= i < additions(lines, from, to, evs).len() ==> !(#[trigger] additions(
                lines,
                from,
                to,
                evs,
            )[i]).replaces,
        forall|k: int|
            0 <= k < inserted(additions(lines, from, to, evs), row).len() ==> exists|j: int|
                0 <= j < evs.len() && #[trigger] event_line(evs[j]) == #[trigger] inserted(
                    additions(lines, from, to, evs),
                    row,
                )[k],
        forall|j: int|
            0 <= j < evs.len() && slot(lines, from, to, (#[trigger] evs[j]).time) == row
                ==> inserted(additions(lines, from, to, evs), row).contains(event_line(evs[j])),
    decreases evs.len(),
{
    let a = additions(lines, from, to, evs);
    assert forall|i: int| 0 <= i < a.len() implies from <= (#[trigger] a[i]).row <= to
        && !a[i].replaces by {
        lemma_slot(lines, from, to, evs[i].time);
    }
    if evs.len() > 0 {
        let rest = evs.drop_last();
        lemma_additions(lines, from, to, rest, row);
        let b = additions(lines, from, to, rest);
        assert(a.drop_last() =~= b);
        let x = evs.last();
        assert(a.last() == insert_at(slot(lines, from, to, x.time), event_line(x)));
        let got = inserted(a, row);
        let old_got = inserted(b, row);
        assert forall|k: int| 0 <= k < got.len() implies exists|j: int|
            0 <= j < evs.len() && #[trigger] event_line(evs[j]) == #[trigger] got[k] by {
            if k < old_got.len() {
                assert(got[k] == old_got[k]);
                let j = choose|j: int|
                    0 <= j < rest.len() && #[trigger] event_line(rest[j]) == old_got[k];
                assert(event_line(evs[j]) == got[k]);
            } else {
                assert(event_line(evs[evs.len() - 1]) == got[k]);
            }
        }
        assert forall|j: int|
            0 <= j < evs.len() && slot(lines, from, to, (#[trigger] evs[j]).time)
                == row implies got.contains(event_line(evs[j])) by {
            if j < rest.len() {
                assert(rest[j] == evs[j]);
                let k = choose|k: int| 0 <= k < old_got.len() && old_got[k] == event_line(rest[j]);
                assert(got[k] == old_got[k]);
            } else {
                assert(got[old_got.len() as int] == event_line(x));
            }
        }
    }
}

/// The fresh events are the events without a line.
pub proof fn lemma_fresh(lines: Seq<Seq<char>>, from: int, to: int, n: Seq<Event>)
    requires
        from <= to,
    ensures
        forall|i: int|
            0 <= i < fresh(lines, from, to, n).len() ==> n.contains(
                #[trigger] fresh(lines, from, to, n)[i],
            ) && line_row(lines, from, to, fresh(lines, from, to, n)[i].id) == to,
        forall|j: int|
            0 <= j < n.len() && line_row(lines, from, to, (#[trigger] n[j]).id) == to ==> fresh(
                lines,
                from,
                to,
                n,
            ).contains(n[j]),
    decreases n.len(),
{
    if n.len() > 0 {
        let rest = n.drop_last();
        lemma_fresh(lines, from, to, rest);
        lemma_line_row(lines, from, to, n.last().id);
        let f = fresh(lines, from, to, rest);
        let all = fresh(lines, from, to, n);
        assert forall|i: int| 0 <= i < all.len() implies n.contains(#[trigger] all[i]) && line_row(
            lines,
            from,
            to,
            all[i].id,
        ) == to by {
            if i < f.len() {
                assert(all[i] == f[i]);
                let k = choose|k: int| 0 <= k < rest.len() && rest[k] == f[i];
                assert(n[k] == f[i]);
            } else {
                assert(n[n.len() - 1] == all[i]);
            }
        }
        assert forall|j: int|
            0 <= j < n.len() && line_row(lines, from, to, (#[trigger] n[j]).id)
                == to implies all.contains(n[j]) by {
            if j < rest.len() {
                assert(rest[j] == n[j]);
                let k = choose|k: int| 0 <= k < f.len() && f[k] == rest[j];
                assert(all[k] == n[j]);
            } else {
                assert(all[f.len() as int] == n[j]);
            }
        }
    }
}

/// The event with an id.
pub open spec fn event_of(n: Seq<Event>, id: Seq<char>) -> Event {
    n[choose|i: int| 0 <= i < n.len() && #[trigger] n[i].id == id]
}

/// What stands in a row of the section after the edits.
pub open spec fn new_line(
    lines: Seq<Seq<char>>,
    from: int,
    to: int,
    n: Seq<Event>,
    r: int,
) -> Seq<char> {
    match synced(lines[r]) {
        None => lines[r],
        Some(p) => if has_id(n, p.id) {
            if line_row(lines, from, to, p.id) == r {
                match p.update(event_of(n, p.id)) {
                    Some(t) => t,
                    None => lines[r],
                }
            } else {
                lines[r]
            }
        } else if cancelled(p.words()) is Some {
            lines[r]
        } else {
            p.cancelled_line()
        },
    }
}

/// Edits that rewrite nothing leave every row as it is; those that put no line
/// anywhere put none before any row.
pub proof fn lemma_one_kind(s: Seq<Edit>, row: int, line: Seq<char>)
    ensures
        (forall|i: int| 0 <= i < s.len() ==> !(#[trigger] s[i]).replaces) ==> rewritten(
            s,
            row,
            line,
        ) == line,
        (forall|i: int| 0 <= i < s.len() ==> (#[trigger] s[i]).replaces) ==> inserted(s, row)
            == Seq::<Seq<char>>::empty(),
    decreases s.len(),
{
    if s.len() > 0 {
        let rest = s.drop_last();
        lemma_one_kind(rest, row, line);
        assert(s[s.len() - 1] == s.last());
        assert(forall|i: int| 0 <= i < rest.len() ==> rest[i] == s[i]);
        if forall|i: int| 0 <= i < s.len() ==> !(#[trigger] s[i]).replaces {
            assert forall|i: int| 0 <= i < rest.len() implies !(#[trigger] rest[i]).replaces by {
                assert(rest[i] == s[i]);
            }
        }
        if forall|i: int| 0 <= i < s.len() ==> (#[trigger] s[i]).replaces {
            assert forall|i: int| 0 <= i < rest.len() implies (#[trigger] rest[i]).replaces by {
                assert(rest[i] == s[i]);
            }
        }
    }
}

/// What the edits of a section do to it.
#[verifier::spinoff_prover]
pub proof fn lemma_raw_edits(lines: Seq<Seq<char>>, from: int, to: int, n: Seq<Event>, r: int)
    requires
        0 <= from <= to <= lines.len(),
        writable(n),
    ensures
        within(raw_edits(lines, from, to, n), from, to),
        inserted(raw_edits(lines, from, to, n), r) == inserted(
            additions(
                lines,
                from,
                to,
                sorted::<CalendarEvent>(fresh(lines, from, to, n)),
            ),
            r,
        ),
        from <= r < to ==> rewritten(raw_edits(lines, from, to, n), r, lines[r]) == new_line(
            lines,
            from,
            to,
            n,
            r,
        ),
{
    let c = changes(lines, from, to, n);
    let k = cancels(lines, from, to, n);
    let f = fresh(lines, from, to, n);
    let a = additions(lines, from, to, sorted::<CalendarEvent>(f));
    let raw = raw_edits(lines, from, to, n);
    lemma_changes_within(lines, from, to, n);
    lemma_additions(lines, from, to, sorted::<CalendarEvent>(f), r);
    let was = if from <= r < to {
        lines[r]
    } else {
        Seq::empty()
    };
    let mid_line = rewritten(c, r, was);
    lemma_cancels(lines, from, to, n, r, mid_line);
    assert forall|i: int| 0 <= i < raw.len() implies from <= (#[trigger] raw[i]).row <= to && (
    raw[i].replaces ==> raw[i].row < to) by {
        if i < c.len() {
            assert(raw[i] == c[i]);
        } else if i < c.len() + k.len() {
            assert(raw[i] == k[i - c.len()]);
        } else {
            assert(raw[i] == a[i - c.len() - k.len()]);
        }
    }
    lemma_concat_edits(c, k, r, was);
    lemma_concat_edits(c + k, a, r, was);
    lemma_one_kind(c, r, was);
    lemma_one_kind(k, r, was);
    lemma_one_kind(a, r, rewritten(c + k, r, was));
    assert(inserted(raw, r) =~= inserted(a, r));
    if from <= r < to {
        lemma_changes(lines, from, to, n, r);
        assert forall|i: int|
            0 <= i < n.len() && line_row(lines, from, to, (#[trigger] n[i]).id) == r implies synced(
            lines[r],
        ) is Some && (synced(lines[r])->0).id == n[i].id by {
            lemma_line_row(lines, from, to, n[i].id);
        }
        match synced(lines[r]) {
            Some(p) => {
                if has_id(n, p.id) {
                    let i = choose|i: int| 0 <= i < n.len() && #[trigger] n[i].id == p.id;
                    assert(event_of(n, p.id) == n[i]);
                }
            },
            None => {},
        }
    }
}

/// What holds of a rewritten line.
pub proof fn lemma_new_line(lines: Seq<Seq<char>>, from: int, to: int, n: Seq<Event>, r: int)
    requires
        0 <= from <= r < to <= lines.len(),
        writable(n),
    ensures
        ({
            let l = new_line(lines, from, to, n, r);
            &&& synced(l) is Some == synced(lines[r]) is Some
            &&& synced(lines[r]) is None ==> l == lines[r]
            &&& synced(lines[r]) matches Some(p) ==> {
                &&& (synced(l)->0).id == p.id
                &&& !has_id(n, p.id) ==> cancelled((synced(l)->0).words()) is Some
                &&& has_id(n, p.id) && line_row(lines, from, to, p.id) == r ==> settled(
                    l,
                    event_of(n, p.id),
                )
            }
        }),
{
    if let Some(p) = synced(lines[r]) {
        if has_id(n, p.id) {
            let i = choose|i: int| 0 <= i < n.len() && #[trigger] n[i].id == p.id;
            if line_row(lines, from, to, p.id) == r {
                assert(valid_event(n[i]));
                lemma_update_settles(lines[r], n[i]);
            }
        } else if cancelled(p.words()) is None {
            lemma_cancelled_line(lines[r]);
        }
    }
}

/// What holds of every line of the section after the edits, where it holds of
/// the rewritten and of the new ones.
proof fn lemma_mid_all(
    lines: Seq<Seq<char>>,
    from: int,
    to: int,
    n: Seq<Event>,
    k: int,
    pred: spec_fn(Seq<char>) -> bool,
)
    requires
        0 <= from <= k <= to <= lines.len(),
        writable(n),
        forall|r: int| from <= r < k ==> pred(#[trigger] new_line(lines, from, to, n, r)),
        forall|i: int|
            0 <= i < n.len() && line_row(lines, from, to, (#[trigger] n[i]).id) == to ==> pred(
                event_line(n[i]),
            ),
    ensures
        ({
            let raw = raw_edits(lines, from, to, n);
            let got = mid(lines, raw, from, k) + inserted(raw, k);
            forall|j: int| 0 <= j < got.len() ==> pred(#[trigger] got[j])
        }),
    decreases k - from,
{
    let raw = raw_edits(lines, from, to, n);
    let f = fresh(lines, from, to, n);
    let fs = sorted::<CalendarEvent>(f);
    lemma_raw_edits(lines, from, to, n, k);
    lemma_additions(lines, from, to, fs, k);
    lemma_fresh(lines, from, to, n);
    let ins = inserted(raw, k);
    assert forall|j: int| 0 <= j < ins.len() implies pred(#[trigger] ins[j]) by {
        let i = choose|i: int| 0 <= i < fs.len() && #[trigger] event_line(fs[i]) == ins[j];
        assert(fs.contains(fs[i]));
        lemma_sorted_members::<CalendarEvent>(f, fs[i]);
        let m = choose|m: int| 0 <= m < f.len() && f[m] == fs[i];
        assert(n.contains(f[m]));
        let q = choose|q: int| 0 <= q < n.len() && n[q] == f[m];
        assert(line_row(lines, from, to, n[q].id) == to);
    }
    let got = mid(lines, raw, from, k) + ins;
    if from < k {
        lemma_mid_all(lines, from, to, n, k - 1, pred);
        lemma_raw_edits(lines, from, to, n, k - 1);
        let before = mid(lines, raw, from, k - 1) + inserted(raw, k - 1);
        assert forall|j: int| 0 <= j < got.len() implies pred(#[trigger] got[j]) by {
            if j < before.len() {
                assert(got[j] == before[j]);
            } else if j == before.len() {
                assert(got[j] == new_line(lines, from, to, n, k - 1));
            } else {
                assert(got[j] == ins[j - before.len() - 1]);
            }
        }
    } else {
        assert forall|j: int| 0 <= j < got.len() implies pred(#[trigger] got[j]) by {
            assert(got[j] == ins[j]);
        }
    }
}

/// What was written up to a row stays at the front.
pub proof fn lemma_mid_prefix(lines: Seq<Seq<char>>, s: Seq<Edit>, from: int, k: int, to: int)
    requires
        from <= k < to,
    ensures
        ({
            let front = mid(lines, s, from, k) + inserted(s, k);
            &&& mid(lines, s, from, to).len() > front.len()
            &&& mid(lines, s, from, to).take(front.len() as int) == front
            &&& mid(lines, s, from, to)[front.len() as int] == rewritten(s, k, lines[k])
        }),
    decreases to - k,
{
    let front = mid(lines, s, from, k) + inserted(s, k);
    if to == k + 1 {
        assert(mid(lines, s, from, to).take(front.len() as int) =~= front);
    } else {
        lemma_mid_prefix(lines, s, from, k, to - 1);
        let m = mid(lines, s, from, to - 1);
        assert(mid(lines, s, from, to).take(front.len() as int) =~= m.take(front.len() as int));
    }
}

/// The lines of the section after the edits.
pub open spec fn new_section(
    lines: Seq<Seq<char>>,
    from: int,
    to: int,
    n: Seq<Event>,
) -> Seq<Seq<char>> {
    let raw = raw_edits(lines, from, to, n);
    mid(lines, raw, from, to) + inserted(raw, to)
}

/// After the edits, the first line that carries an event's id is settled.
#[verifier::spinoff_prover]
pub proof fn lemma_first_settled(
    lines: Seq<Seq<char>>,
    from: int,
    to: int,
    n: Seq<Event>,
    i: int,
)
    requires
        0 <= from <= to <= lines.len(),
        writable(n),
        0 <= i < n.len(),
    ensures
        ({
            let got = new_section(lines, from, to, n);
            let at = first_row(got, carries(n[i].id), 0, got.len() as int);
            &&& at < got.len()
            &&& settled(got[at], n[i])
        }),
{
    let raw = raw_edits(lines, from, to, n);
    let got = new_section(lines, from, to, n);
    let id = n[i].id;
    let row = line_row(lines, from, to, id);
    lemma_line_row(lines, from, to, id);
    if row < to {
        let pred = |l: Seq<char>| !carries(id)(l);
        assert forall|r: int| from <= r < row implies pred(
            #[trigger] new_line(lines, from, to, n, r),
        ) by {
            lemma_new_line(lines, from, to, n, r);
            assert(!carries(id)(lines[r]));
        }
        assert forall|j: int|
            0 <= j < n.len() && line_row(lines, from, to, (#[trigger] n[j]).id) == to implies pred(
            event_line(n[j]),
        ) by {
            assert(valid_event(n[j]));
            lemma_event_line(n[j]);
        }
        lemma_mid_all(lines, from, to, n, row, pred);
        lemma_mid_prefix(lines, raw, from, row, to);
        lemma_raw_edits(lines, from, to, n, row);
        let front = mid(lines, raw, from, row) + inserted(raw, row);
        let at = front.len() as int;
        let m = mid(lines, raw, from, to);
        assert forall|j: int| 0 <= j < at implies !carries(id)(#[trigger] got[j]) by {
            assert(got[j] == m.take(at)[j]);
            assert(pred(front[j]));
        }
        assert(got[at] == new_line(lines, from, to, n, row));
        lemma_new_line(lines, from, to, n, row);
        assert(n[i].id == id);
        assert(has_id(n, id));
        assert(event_of(n, id) == n[i]) by {
            let k = choose|k: int| 0 <= k < n.len() && #[trigger] n[k].id == id;
            if k < i {
                assert(n[k].id != n[i].id);
            } else if i < k {
                assert(n[i].id != n[k].id);
            }
        }
        lemma_first_row_is(got, carries(id), 0, got.len() as int, at);
    } else {
        lemma_new_event_settled(lines, from, to, n, i);
    }
}

/// After the edits, the line of an event that had none is settled.
#[verifier::spinoff_prover]
pub proof fn lemma_new_event_settled(
    lines: Seq<Seq<char>>,
    from: int,
    to: int,
    n: Seq<Event>,
    i: int,
)
    requires
        0 <= from <= to <= lines.len(),
        writable(n),
        0 <= i < n.len(),
        line_row(lines, from, to, n[i].id) == to,
    ensures
        ({
            let got = new_section(lines, from, to, n);
            let at = first_row(got, carries(n[i].id), 0, got.len() as int);
            &&& at < got.len()
            &&& settled(got[at], n[i])
            &&& got[at] == event_line(n[i])
        }),
{
    let raw = raw_edits(lines, from, to, n);
    let got = new_section(lines, from, to, n);
    let id = n[i].id;
    lemma_line_row(lines, from, to, id);
    assert(valid_event(n[i]));
    lemma_event_line(n[i]);
    // Every line that carries the id is the event's own.
    let pred = |l: Seq<char>| carries(id)(l) ==> l == event_line(n[i]);
    assert forall|r: int| from <= r < to implies pred(#[trigger] new_line(lines, from, to, n, r)) by {
        lemma_new_line(lines, from, to, n, r);
        assert(!carries(id)(lines[r]));
    }
    assert forall|j: int|
        0 <= j < n.len() && line_row(lines, from, to, (#[trigger] n[j]).id) == to implies pred(
        event_line(n[j]),
    ) by {
        assert(valid_event(n[j]));
        lemma_event_line(n[j]);
        if j < i {
            assert(n[j].id != n[i].id);
        } else if i < j {
            assert(n[i].id != n[j].id);
        }
    }
    lemma_mid_all(lines, from, to, n, to, pred);
    // One such line is there.
    let f = fresh(lines, from, to, n);
    let fs = sorted::<CalendarEvent>(f);
    lemma_fresh(lines, from, to, n);
    lemma_sorted_members::<CalendarEvent>(f, n[i]);
    assert(f.contains(n[i]));
    let k = choose|k: int| 0 <= k < fs.len() && fs[k] == n[i];
    let row = slot(lines, from, to, n[i].time);
    lemma_slot(lines, from, to, n[i].time);
    lemma_additions(lines, from, to, fs, row);
    assert(slot(lines, from, to, fs[k].time) == row);
    lemma_raw_edits(lines, from, to, n, row);
    let ins = inserted(raw, row);
    assert(ins.contains(event_line(n[i])));
    let j = choose|j: int| 0 <= j < ins.len() && ins[j] == event_line(n[i]);
    let base = mid(lines, raw, from, row).len() as int;
    if row < to {
        lemma_mid_prefix(lines, raw, from, row, to);
        let front = mid(lines, raw, from, row) + ins;
        let m = mid(lines, raw, from, to);
        assert(got[base + j] == m.take(front.len() as int)[base + j]);
        assert(front[base + j] == ins[j]);
    } else {
        assert(got[base + j] == ins[j]);
    }
    assert(carries(id)(got[base + j]));
    lemma_first_row(got, carries(id), 0, got.len() as int);
    let at = first_row(got, carries(id), 0, got.len() as int);
    if at == got.len() {
        assert(!carries(id)(got[base + j]));
    }
    assert(pred(got[at]));
}

/// A section whose events' lines are settled, and whose other lines are marked
/// as cancelled, needs no edit.
proof fn lemma_nothing_to_do(lines: Seq<Seq<char>>, from: int, to: int, n: Seq<Event>)
    requires
        0 <= from <= to <= lines.len(),
        forall|i: int|
            0 <= i < n.len() ==> line_row(lines, from, to, (#[trigger] n[i]).id) < to && settled(
                lines[line_row(lines, from, to, n[i].id)],
                n[i],
            ),
        forall|r: int|
            from <= r < to && synced(#[trigger] lines[r]) is Some && !has_id(
                n,
                (synced(lines[r])->0).id,
            ) ==> cancelled((synced(lines[r])->0).words()) is Some,
    ensures
        section_edits(lines, from, to, n) == Seq::<Edit>::empty(),
{
    lemma_no_changes(lines, from, to, n);
    lemma_no_cancels(lines, from, to, n);
    let f = fresh(lines, from, to, n);
    assert(sorted::<CalendarEvent>(f) =~= Seq::<Event>::empty());
    assert(raw_edits(lines, from, to, n) =~= Seq::<Edit>::empty());
}

proof fn lemma_no_changes(lines: Seq<Seq<char>>, from: int, to: int, n: Seq<Event>)
    requires
        forall|i: int|
            0 <= i < n.len() ==> line_row(lines, from, to, (#[trigger] n[i]).id) < to && settled(
                lines[line_row(lines, from, to, n[i].id)],
                n[i],
            ),
    ensures
        changes(lines, from, to, n) == Seq::<Edit>::empty(),
        fresh(lines, from, to, n) == Seq::<Event>::empty(),
    decreases n.len(),
{
    if n.len() > 0 {
        let rest = n.drop_last();
        assert forall|i: int| 0 <= i < rest.len() implies line_row(
            lines,
            from,
            to,
            (#[trigger] rest[i]).id,
        ) < to && settled(lines[line_row(lines, from, to, rest[i].id)], rest[i]) by {
            assert(rest[i] == n[i]);
        }
        lemma_no_changes(lines, from, to, rest);
        assert(n[n.len() - 1] == n.last());
    }
}

proof fn lemma_no_cancels(lines: Seq<Seq<char>>, from: int, to: int, n: Seq<Event>)
    requires
        0 <= from <= to <= lines.len(),
        forall|r: int|
            from <= r < to && synced(#[trigger] lines[r]) is Some && !has_id(
                n,
                (synced(lines[r])->0).id,
            ) ==> cancelled((synced(lines[r])->0).words()) is Some,
    ensures
        cancels(lines, from, to, n) == Seq::<Edit>::empty(),
    decreases to - from,
{
    if from < to {
        lemma_no_cancels(lines, from, to - 1, n);
        assert(synced(lines[to - 1]) is Some || synced(lines[to - 1]) is None);
    }
}

/// A line that is settled stays so without a carriage return at its end.
#[verifier::spinoff_prover]
proof fn lemma_settled_cr(l: Seq<char>, event: Event)
    requires
        synced(l) is Some,
    ensures
        synced(strip_cr(l)) is Some,
        (synced(strip_cr(l))->0).id == (synced(l)->0).id,
        (synced(strip_cr(l))->0).words() == (synced(l)->0).words(),
        settled(l, event) ==> settled(strip_cr(l), event),
{
    lemma_synced_cr(l);
    let m = strip_cr(l);
    if m != l {
        lemma_parts(l);
        lemma_parts(m);
        let p = synced(l)->0;
        let q = synced(m)->0;
        assert(q.words() =~= p.words());
        if let Some((a, b)) = p.token {
            assert(m.subrange(a, b) =~= l.subrange(a, b)) by {
                lemma_synced(l);
            }
        }
        assert(q.token_text() == p.token_text());
        assert(q.new_marker(event.kind) == p.new_marker(event.kind));
        if settled(l, event) {
            let region = l.subrange(p.content_start(), p.marker.0);
            assert(m.subrange(q.content_start(), q.marker.0) =~= region);
            if let Some(text) = q.aim(event) {
                assert(p.aim(event) == Some(text));
                let t = q.update(event)->0;
                if t != m {
                    let mk = q.new_marker(event.kind);
                    lemma_rebuild_cr(l, event_token(event), text, mk);
                    assert(t + seq!['\r'] == l);
                    assert(t =~= l.drop_last());
                }
            }
        }
    }
}

/// A carriage return at the end of a line stays there when it is rebuilt.
proof fn lemma_rebuild_cr(
    l: Seq<char>,
    token: Option<Seq<char>>,
    text: Seq<char>,
    new_marker: Option<Seq<char>>,
)
    requires
        synced(l) is Some,
        l.len() > 0,
        l.last() == '\r',
    ensures
        (synced(l.drop_last())->0).rebuild(token, text, new_marker) + seq!['\r'] == (synced(
            l,
        )->0).rebuild(token, text, new_marker),
{
    let m = l.drop_last();
    lemma_synced_cr(l);
    lemma_parts(l);
    lemma_parts(m);
    let p = synced(l)->0;
    let q = synced(m)->0;
    assert(l.take(p.content_start()) =~= m.take(p.content_start()));
    assert(l.subrange(p.text.1, p.marker.0) =~= m.subrange(p.text.1, p.marker.0));
    assert(l.subrange(p.marker.0, p.marker.1) =~= m.subrange(p.marker.0, p.marker.1));
    assert(l.skip(p.marker.1) =~= m.skip(p.marker.1) + seq!['\r']);
    assert(q.rebuild(token, text, new_marker) + seq!['\r'] =~= p.rebuild(token, text, new_marker));
}

/// Whether `b` is `a` read again: line for line the same, but for a carriage
/// return at the end.
pub open spec fn reread(a: Seq<Seq<char>>, b: Seq<Seq<char>>) -> bool {
    a.len() == b.len() && forall|i: int|
        0 <= i < a.len() ==> (#[trigger] b[i] == a[i] || b[i] == strip_cr(a[i]))
}

/// Reading a note again finds the same planner section, child section, and
/// lines of events.
proof fn lemma_reread(
    a: Seq<Seq<char>>,
    b: Seq<Seq<char>>,
    planner_heading: Seq<char>,
    section: Seq<char>,
)
    requires
        reread(a, b),
    ensures
        planner(b, planner_heading) == planner(a, planner_heading),
        planner(a, planner_heading) matches Some(plan) ==> child_section(b, plan, section)
            == child_section(a, plan, section),
{
    let n = a.len() as int;
    assert forall|i: int| 0 <= i < n implies heading(#[trigger] b[i]) == heading(a[i]) by {
        lemma_heading_cr(a[i]);
    }
    let t = titled(planner_heading);
    assert forall|r: int| 0 <= r < n implies t(#[trigger] a[r]) == t(b[r]) by {
        assert(heading(b[r]) == heading(a[r]));
    }
    lemma_first_row_same(a, b, t, 0, n);
    lemma_first_row(a, t, 0, n);
    let row = first_row(a, t, 0, n);
    if row < n {
        assert(heading(b[row]) == heading(a[row]));
        let level = (heading(a[row])->0).0;
        let u = at_or_above(level);
        assert forall|r: int| row + 1 <= r < n implies u(#[trigger] a[r]) == u(b[r]) by {
            assert(heading(b[r]) == heading(a[r]));
        }
        lemma_first_row_same(a, b, u, row + 1, n);
        let plan = planner(a, planner_heading)->0;
        lemma_first_row(a, u, row + 1, n);
        let v = titled_at(section, plan.level + 1);
        assert forall|r: int| plan.start <= r < plan.end implies v(#[trigger] a[r]) == v(b[r]) by {
            assert(heading(b[r]) == heading(a[r]));
        }
        lemma_first_row_same(a, b, v, plan.start, plan.end);
        lemma_first_row(a, v, plan.start, plan.end);
        let start = first_row(a, v, plan.start, plan.end);
        let x = at_or_above(plan.level + 1);
        assert forall|r: int| start + 1 <= r < plan.end implies x(#[trigger] a[r]) == x(b[r]) by {
            assert(heading(b[r]) == heading(a[r]));
        }
        lemma_first_row_same(a, b, x, start + 1, plan.end);
    }
}

/// A note whose section is in step, read again, needs no edit.
proof fn lemma_reread_done(
    a: Seq<Seq<char>>,
    b: Seq<Seq<char>>,
    events: Seq<Event>,
    planner_heading: Seq<char>,
    section: Seq<char>,
    plan: Section,
    from: int,
    to: int,
)
    requires
        reread(a, b),
        planner(a, planner_heading) == Some(plan),
        child_section(a, plan, section) == Some((from, to)),
        section_name(section) == section,
        0 <= from <= to <= a.len(),
        forall|i: int|
            0 <= i < normal(events).len() ==> line_row(
                a,
                from,
                to,
                (#[trigger] normal(events)[i]).id,
            ) < to && settled(
                a[line_row(a, from, to, normal(events)[i].id)],
                normal(events)[i],
            ),
        forall|r: int|
            from <= r < to && synced(#[trigger] a[r]) is Some && !has_id(
                normal(events),
                (synced(a[r])->0).id,
            ) ==> cancelled((synced(a[r])->0).words()) is Some,
    ensures
        outcome(b, events, section, planner_heading) is Some,
        (outcome(b, events, section, planner_heading)->0).edits == Seq::<Edit>::empty(),
{
    let n = normal(events);
    lemma_reread(a, b, planner_heading, section);
    assert forall|r: int| from <= r < to implies (synced(#[trigger] b[r]) is Some) == (synced(
        a[r],
    ) is Some) && (synced(a[r]) is Some ==> (synced(b[r])->0).id == (synced(a[r])->0).id && (
    synced(b[r])->0).words() == (synced(a[r])->0).words()) by {
        lemma_synced_cr(a[r]);
        if synced(a[r]) is Some {
            lemma_settled_cr(a[r], arbitrary());
        }
    }
    assert forall|i: int| 0 <= i < n.len() implies line_row(b, from, to, (#[trigger] n[i]).id) < to
        && settled(b[line_row(b, from, to, n[i].id)], n[i]) by {
        let c = carries(n[i].id);
        assert forall|r: int| from <= r < to implies c(#[trigger] a[r]) == c(b[r]) by {
            assert((synced(b[r]) is Some) == (synced(a[r]) is Some));
        }
        lemma_first_row_same(a, b, c, from, to);
        lemma_line_row(a, from, to, n[i].id);
        let row = line_row(a, from, to, n[i].id);
        lemma_settled_cr(a[row], n[i]);
        assert(b[row] == a[row] || b[row] == strip_cr(a[row]));
    }
    assert forall|r: int|
        from <= r < to && synced(#[trigger] b[r]) is Some && !has_id(
            n,
            (synced(b[r])->0).id,
        ) implies cancelled((synced(b[r])->0).words()) is Some by {
        assert(synced(a[r]) is Some);
    }
    lemma_nothing_to_do(b, from, to, n);
}

/// The text of an edited note reads back as its lines.
proof fn lemma_reread_note(note: Seq<char>, edits: Seq<Edit>)
    requires
        note.len() > 0,
        edited(lines(note), edits).len() > 0,
        single_lines(edited(lines(note), edits)),
        note.last() != '\n' ==> edited(lines(note), edits).last().len() > 0,
    ensures
        reread(edited(lines(note), edits), lines(edited_note(note, edits))),
{
    let o = edited(lines(note), edits);
    if note.last() == '\n' {
        lemma_lines_of_ended(o);
    } else {
        lemma_lines_of_joined(o);
    }
}

/// Texts without line feeds, put together, hold none.
proof fn lemma_no_feed_add(a: Seq<char>, b: Seq<char>)
    requires
        no_feed(a),
        no_feed(b),
    ensures
        no_feed(a + b),
{
    let c = a + b;
    assert forall|i: int| 0 <= i < c.len() implies #[trigger] c[i] != '\n' by {
        if i < a.len() {
            assert(a[i] != '\n');
        } else {
            assert(b[i - a.len()] != '\n');
        }
    }
}

/// A part of a text without line feeds holds none.
proof fn lemma_no_feed_part(a: Seq<char>, i: int, j: int)
    requires
        no_feed(a),
        0 <= i <= j <= a.len(),
    ensures
        no_feed(a.subrange(i, j)),
        no_feed(a.take(i)),
        no_feed(a.skip(i)),
{
    assert forall|k: int| 0 <= k < j - i implies #[trigger] a.subrange(i, j)[k] != '\n' by {
        assert(a[i + k] != '\n');
    }
    assert forall|k: int| 0 <= k < i implies #[trigger] a.take(i)[k] != '\n' by {
        assert(a[k] != '\n');
    }
    assert forall|k: int| 0 <= k < a.len() - i implies #[trigger] a.skip(i)[k] != '\n' by {
        assert(a[i + k] != '\n');
    }
}

/// A marker holds no line feed.
proof fn lemma_no_feed_marker(id: Seq<char>, kind: EventKind)
    requires
        id.len() > 0,
        all_hex(id),
    ensures
        no_feed(marker(id, kind)),
{
    reveal_strlit("<!--gcal:");
    reveal_strlit("-->");
    reveal_strlit("focus");
    reveal_strlit("ooo");
    assert(no_feed(id)) by {
        assert forall|i: int| 0 <= i < id.len() implies #[trigger] id[i] != '\n' by {
            assert(is_hex(id[i]));
        }
    }
    assert(no_feed("<!--gcal:"@));
    assert(no_feed("-->"@));
    lemma_no_feed_add("<!--gcal:"@, id);
    match suffix_of(kind) {
        Some(suffix) => {
            assert(no_feed(suffix));
            assert(no_feed(seq![':']));
            lemma_no_feed_add("<!--gcal:"@ + id, seq![':']);
            lemma_no_feed_add("<!--gcal:"@ + id + seq![':'], suffix);
            lemma_no_feed_add("<!--gcal:"@ + id + seq![':'] + suffix, "-->"@);
        },
        None => {
            lemma_no_feed_add("<!--gcal:"@ + id, "-->"@);
        },
    }
}

/// A number in decimal holds no line feed.
proof fn lemma_no_feed_decimal(n: nat)
    ensures
        no_feed(crate::format::decimal(n)),
        no_feed(crate::format::two_digits(n)),
    decreases n,
{
    if n >= 10 {
        lemma_no_feed_decimal(n / 10);
        let d = crate::format::decimal(n / 10);
        assert forall|i: int| 0 <= i < crate::format::decimal(n).len() implies
            #[trigger] crate::format::decimal(n)[i] != '\n' by {
            if i < d.len() {
                assert(d[i] != '\n');
            }
        }
    }
}

/// A time token holds no line feed.
proof fn lemma_no_feed_token(event: Event)
    ensures
        event_token(event) matches Some(t) ==> no_feed(t),
{
    reveal_strlit(" - ");
    if let Some((start, end)) = event.time {
        let s = start as nat;
        let e = end as nat;
        lemma_no_feed_decimal(s / 60);
        lemma_no_feed_decimal(s % 60);
        lemma_no_feed_decimal(e / 60);
        lemma_no_feed_decimal(e % 60);
        let a = crate::format::two_digits(s / 60);
        let b = crate::format::two_digits(s % 60);
        let c = crate::format::two_digits(e / 60);
        let d = crate::format::two_digits(e % 60);
        assert(no_feed(seq![':']));
        assert(no_feed(" - "@));
        lemma_no_feed_add(a, seq![':']);
        lemma_no_feed_add(a + seq![':'], b);
        lemma_no_feed_add(a + seq![':'] + b, " - "@);
        lemma_no_feed_add(a + seq![':'] + b + " - "@, c);
        lemma_no_feed_add(a + seq![':'] + b + " - "@ + c, seq![':']);
        lemma_no_feed_add(a + seq![':'] + b + " - "@ + c + seq![':'], d);
    }
}

/// A token and a text without line feeds hold none together.
proof fn lemma_no_feed_content(token: Option<Seq<char>>, text: Seq<char>)
    requires
        token matches Some(t) ==> no_feed(t),
        no_feed(text),
    ensures
        no_feed(content(token, text)),
{
    if let Some(t) = token {
        assert(no_feed(seq![' ']));
        lemma_no_feed_add(t, seq![' ']);
        lemma_no_feed_add(t + seq![' '], text);
    }
}

/// The line of a new event holds no line feed.
proof fn lemma_no_feed_event_line(event: Event)
    requires
        valid_event(event),
        no_feed(event.title),
    ensures
        no_feed(event_line(event)),
        event_line(event).len() > 0,
{
    reveal_strlit("- [ ] ");
    lemma_no_feed_token(event);
    lemma_no_feed_marker(event.id, event.kind);
    let body = content(event_token(event), event.title);
    lemma_no_feed_content(event_token(event), event.title);
    assert(no_feed(seq![' ']));
    lemma_no_feed_add(body, seq![' ']);
    let rest = if body.len() == 0 {
        body
    } else {
        body + seq![' ']
    };
    assert(no_feed("- [ ] "@));
    lemma_no_feed_add("- [ ] "@, rest);
    lemma_no_feed_add("- [ ] "@ + rest, marker(event.id, event.kind));
}

/// A rebuilt line holds no line feed.
proof fn lemma_no_feed_rebuild(
    line: Seq<char>,
    token: Option<Seq<char>>,
    text: Seq<char>,
    new_marker: Option<Seq<char>>,
)
    requires
        synced(line) is Some,
        no_feed(line),
        token matches Some(t) ==> no_feed(t),
        no_feed(text),
        new_marker matches Some(m) ==> no_feed(m),
    ensures
        no_feed((synced(line)->0).rebuild(token, text, new_marker)),
{
    let p = synced(line)->0;
    lemma_parts(line);
    lemma_no_feed_content(token, text);
    lemma_no_feed_part(line, p.content_start(), line.len() as int);
    lemma_no_feed_part(line, p.text.1, p.marker.0);
    lemma_no_feed_part(line, p.marker.0, p.marker.1);
    lemma_no_feed_part(line, p.marker.1, line.len() as int);
    let a = line.take(p.content_start());
    let b = content(token, text);
    let c = line.subrange(p.text.1, p.marker.0);
    let d = match new_marker {
        Some(m) => m,
        None => line.subrange(p.marker.0, p.marker.1),
    };
    let e = line.skip(p.marker.1);
    lemma_no_feed_add(a, b);
    lemma_no_feed_add(a + b, c);
    lemma_no_feed_add(a + b + c, d);
    lemma_no_feed_add(a + b + c + d, e);
}

/// What a trimmed text holds no line feed of, the trimmed text does not either.
proof fn lemma_no_feed_trims(s: Seq<char>)
    requires
        no_feed(s),
    ensures
        no_feed(trim(s)),
        no_feed(trim_end(s)),
{
    lemma_lead(s);
    lemma_body(s);
    let t = crate::text::trim_start(s);
    lemma_body(t);
    lemma_no_feed_part(s, lead(s) as int, s.len() as int);
    assert(t =~= s.subrange(lead(s) as int, s.len() as int));
    lemma_no_feed_part(t, 0, crate::text::body_len(t) as int);
    assert(trim(s) =~= t.subrange(0, crate::text::body_len(t) as int));
    lemma_no_feed_part(s, 0, crate::text::body_len(s) as int);
    assert(trim_end(s) =~= s.subrange(0, crate::text::body_len(s) as int));
}

/// The parts of the cancelled form hold no line feed.
proof fn lemma_no_feed_mark(words: Seq<char>)
    requires
        no_feed(words),
    ensures
        cancelled(words) matches Some((inner, trailing)) ==> no_feed(inner) && no_feed(trailing)
            && no_feed(inner + trailing),
{
    reveal_strlit("~~");
    reveal_strlit("~~ (cancelled)");
    if let Some((struck, trailing)) = cancelled(words) {
        let inner = words.skip(2);
        crate::text::lemma_find_from(inner, "~~ (cancelled)"@, 0);
        lemma_no_feed_part(words, 2, words.len() as int);
        assert(inner =~= words.subrange(2, words.len() as int));
        let end = crate::text::find(inner, "~~ (cancelled)"@)->0;
        lemma_no_feed_part(inner, 0, end);
        lemma_no_feed_part(inner, end + 14, inner.len() as int);
        assert(struck =~= inner.subrange(0, end));
        assert(trailing =~= inner.subrange(end + 14, inner.len() as int));
        lemma_no_feed_add(struck, trailing);
    }
}

proof fn lemma_no_feed_plain(s: Seq<char>)
    requires
        no_feed(s),
    ensures
        no_feed(plain(s)),
    decreases s.len(),
{
    lemma_no_feed_trims(s);
    lemma_no_feed_mark(trim(s));
    if let Some((inner, trailing)) = cancelled(trim(s)) {
        crate::synced_line::lemma_cancelled_len(trim(s));
        crate::clean::lemma_trim_ends(s);
        lemma_no_feed_plain(inner + trailing);
    }
}

proof fn lemma_no_feed_bare(s: Seq<char>)
    requires
        no_feed(s),
    ensures
        no_feed(bare(s)),
    decreases s.len(),
{
    let n = token_len(s);
    crate::synced_line::lemma_time_token_len(s);
    lemma_no_feed_part(s, n, s.len() as int);
    let behind = s.skip(n);
    assert(behind =~= s.subrange(n, s.len() as int));
    lemma_no_feed_trims(behind);
    let words = trim(behind);
    lemma_no_feed_mark(words);
    if let Some((inner, trailing)) = cancelled(words) {
        crate::synced_line::lemma_bare_shrinks(s);
        if n > 0 {
            lemma_no_feed_part(s, 0, n);
            assert(s.take(n) =~= s.subrange(0, n));
        }
        lemma_no_feed_content(token_of(s), inner + trailing);
        lemma_no_feed_trims(content(token_of(s), inner + trailing));
        lemma_no_feed_bare(trim(content(token_of(s), inner + trailing)));
    }
}

/// The words behind a title hold no line feed.
proof fn lemma_no_feed_trailing(text: Seq<char>, title: Seq<char>)
    requires
        no_feed(text),
    ensures
        trailing_of(text, title) matches Some(t) ==> no_feed(t),
{
    if title.len() > 0 && trailing_of(text, title) is Some {
        lemma_no_feed_part(text, title.len() as int, text.len() as int);
        assert(text.skip(title.len() as int) =~= text.subrange(
            title.len() as int,
            text.len() as int,
        ));
    }
}

/// What a line shows, and has to show for an event, holds no line feed.
proof fn lemma_no_feed_aim(line: Seq<char>, event: Event)
    requires
        synced(line) is Some,
        no_feed(line),
        no_feed(event.title),
    ensures
        no_feed((synced(line)->0).words()),
        (synced(line)->0).token_text() matches Some(t) ==> no_feed(t),
        (synced(line)->0).aim(event) matches Some(t) ==> no_feed(t),
{
    let p = synced(line)->0;
    let title = event.title;
    lemma_parts(line);
    lemma_synced(line);
    lemma_no_feed_part(line, p.text.0, p.text.1);
    lemma_no_feed_part(line, p.content_start(), p.marker.0);
    lemma_no_feed_trims(line.subrange(p.content_start(), p.marker.0));
    if let Some((a, b)) = p.token {
        lemma_no_feed_part(line, a, b);
    }
    let words = p.words();
    lemma_no_feed_plain(words);
    lemma_no_feed_trims(plain(words));
    lemma_no_feed_bare(p.whole());
    lemma_no_feed_titled(None, words, title);
    lemma_no_feed_titled(p.token_text(), words, title);
    lemma_no_feed_untimed(p.whole(), title);
    if let Some(text) = named_text(p.token_text(), words, title) {
        lemma_no_feed_untimed(text, title);
    }
}

proof fn lemma_no_feed_titled(token: Option<Seq<char>>, words: Seq<char>, title: Seq<char>)
    requires
        token matches Some(t) ==> no_feed(t),
        no_feed(words),
        no_feed(title),
    ensures
        named_text(token, words, title) matches Some(t) ==> no_feed(t),
{
    lemma_no_feed_mark(words);
    if let Some((inner, trailing)) = cancelled(words) {
        lemma_no_feed_content(token, inner);
        lemma_no_feed_trailing(inner, title);
        lemma_no_feed_trailing(content(token, inner), title);
        let rest = own_words(token, inner, title) + trailing;
        lemma_no_feed_add(own_words(token, inner, title), trailing);
        assert(no_feed(seq![' ']));
        lemma_no_feed_add(seq![' '], rest);
        lemma_no_feed_add(title, rest);
        lemma_no_feed_add(title, seq![' '] + rest);
        lemma_no_feed_trims(title + rest);
        lemma_no_feed_trims(title + (seq![' '] + rest));
    }
}

proof fn lemma_no_feed_untimed(text: Seq<char>, title: Seq<char>)
    requires
        no_feed(text),
    ensures
        no_feed(untimed(text, title)),
{
    let n = token_len(text);
    crate::synced_line::lemma_time_token_len(text);
    lemma_no_feed_part(text, n, text.len() as int);
    assert(text.skip(n) =~= text.subrange(n, text.len() as int));
    lemma_no_feed_trims(text.skip(n));
}

/// A rewritten line holds no line feed.
proof fn lemma_no_feed_new_line(
    lines: Seq<Seq<char>>,
    from: int,
    to: int,
    n: Seq<Event>,
    r: int,
)
    requires
        0 <= from <= r < to <= lines.len(),
        writable(n),
        no_feed(lines[r]),
    ensures
        no_feed(new_line(lines, from, to, n, r)),
{
    if let Some(p) = synced(lines[r]) {
        let line = lines[r];
        lemma_parts(line);
        if has_id(n, p.id) {
            let i = choose|i: int| 0 <= i < n.len() && #[trigger] n[i].id == p.id;
            let event = n[i];
            assert(valid_event(n[i]));
            assert(event_of(n, p.id) == event);
            lemma_no_feed_aim(line, event);
            lemma_no_feed_token(event);
            lemma_no_feed_marker(p.id, event.kind);
            if let Some(text) = p.aim(event) {
                lemma_no_feed_rebuild(line, event_token(event), text, p.new_marker(event.kind));
            }
        } else {
            let nothing = Event {
                id: p.id,
                title: Seq::empty(),
                time: None,
                kind: EventKind::Default,
            };
            lemma_no_feed_aim(line, nothing);
            reveal_strlit("~~");
            reveal_strlit("~~ (cancelled)");
            assert(no_feed("~~"@));
            assert(no_feed("~~ (cancelled)"@));
            lemma_no_feed_add("~~"@, p.words());
            lemma_no_feed_add("~~"@ + p.words(), "~~ (cancelled)"@);
            lemma_no_feed_rebuild(
                line,
                p.token_text(),
                "~~"@ + p.words() + "~~ (cancelled)"@,
                None,
            );
        }
    }
}

/// Where a section of a note lies.
pub proof fn lemma_bounds(lines: Seq<Seq<char>>, planner_heading: Seq<char>, section: Seq<char>)
    ensures
        planner(lines, planner_heading) matches Some(plan) ==> {
            &&& 1 <= plan.start <= plan.end <= lines.len()
            &&& titled(planner_heading)(lines[plan.start - 1])
            &&& (heading(lines[plan.start - 1])->0).0 == plan.level
            &&& 1 <= plan.level <= 6
            &&& forall|r: int|
                0 <= r < plan.start - 1 ==> !titled(planner_heading)(#[trigger] lines[r])
            &&& forall|r: int|
                plan.start <= r < plan.end ==> !at_or_above(plan.level)(#[trigger] lines[r])
            &&& plan.end < lines.len() ==> at_or_above(plan.level)(lines[plan.end])
            &&& child_section(lines, plan, section) matches Some((from, to)) ==> {
                &&& plan.start < from <= to <= plan.end
                &&& titled_at(section, plan.level + 1)(lines[from - 1])
                &&& forall|r: int|
                    plan.start <= r < from - 1 ==> !titled_at(section, plan.level + 1)(
                        #[trigger] lines[r],
                    )
                &&& forall|r: int|
                    from <= r < to ==> !at_or_above(plan.level + 1)(#[trigger] lines[r])
                &&& to < plan.end ==> at_or_above(plan.level + 1)(lines[to])
            }
            &&& child_section(lines, plan, section) is None ==> forall|r: int|
                plan.start <= r < plan.end ==> !titled_at(section, plan.level + 1)(
                    #[trigger] lines[r],
                )
        },
{
    let n = lines.len() as int;
    lemma_first_row(lines, titled(planner_heading), 0, n);
    if let Some(plan) = planner(lines, planner_heading) {
        lemma_first_row(lines, at_or_above(plan.level), plan.start, n);
        let v = titled_at(section, plan.level + 1);
        lemma_first_row(lines, v, plan.start, plan.end);
        let row = first_row(lines, v, plan.start, plan.end);
        if row < plan.end {
            lemma_first_row(lines, at_or_above(plan.level + 1), row + 1, plan.end);
        }
    }
}

/// The note with some rows inside its planner section replaced by others.
pub open spec fn spliced(
    lines: Seq<Seq<char>>,
    from: int,
    to: int,
    other: Seq<Seq<char>>,
) -> Seq<Seq<char>> {
    lines.take(from) + other + lines.skip(to)
}

/// Rows that hold no heading to end it can be replaced inside the planner
/// section.
proof fn lemma_spliced_planner(
    lines: Seq<Seq<char>>,
    planner_heading: Seq<char>,
    plan: Section,
    from: int,
    to: int,
    other: Seq<Seq<char>>,
)
    requires
        planner(lines, planner_heading) == Some(plan),
        plan.start <= from <= to <= plan.end,
        forall|j: int| 0 <= j < other.len() ==> !at_or_above(plan.level)(#[trigger] other[j]),
    ensures
        planner(spliced(lines, from, to, other), planner_heading) == Some(
            Section {
                start: plan.start,
                end: plan.end + other.len() - (to - from),
                level: plan.level,
            },
        ),
        plan.end + other.len() - (to - from) <= spliced(lines, from, to, other).len(),
{
    lemma_bounds(lines, planner_heading, Seq::empty());
    let o = spliced(lines, from, to, other);
    let k = other.len() - (to - from);
    let n = lines.len() as int;
    assert(o.len() == n + k);
    assert(forall|r: int| 0 <= r < from ==> o[r] == lines[r]);
    assert(forall|j: int| 0 <= j < other.len() ==> o[from + j] == other[j]);
    assert forall|r: int| to <= r < n implies #[trigger] o[r + k] == lines[r] by {}
    let row = plan.start - 1;
    assert forall|r: int| 0 <= r < row implies !titled(planner_heading)(#[trigger] o[r]) by {
        assert(o[r] == lines[r]);
    }
    lemma_first_row_is(o, titled(planner_heading), 0, n + k, row);
    assert forall|r: int| plan.start <= r < plan.end + k implies !at_or_above(plan.level)(
        #[trigger] o[r],
    ) by {
        if r < from {
            assert(o[r] == lines[r]);
        } else if r < from + other.len() {
            assert(o[r] == other[r - from]);
        } else {
            assert(o[(r - k) + k] == lines[r - k]);
        }
    }
    if plan.end < n {
        assert(o[plan.end + k] == lines[plan.end]);
    }
    lemma_first_row_is(o, at_or_above(plan.level), plan.start, n + k, plan.end + k);
}

/// The first row is found again at an offset.
proof fn lemma_first_row_offset(
    a: Seq<Seq<char>>,
    b: Seq<Seq<char>>,
    pred: spec_fn(Seq<char>) -> bool,
    from: int,
)
    requires
        0 <= from,
        from + b.len() <= a.len(),
        forall|j: int| 0 <= j < b.len() ==> #[trigger] a[from + j] == b[j],
    ensures
        first_row(a, pred, from, from + b.len()) == from + first_row(b, pred, 0, b.len() as int),
{
    lemma_first_row(b, pred, 0, b.len() as int);
    let at = first_row(b, pred, 0, b.len() as int);
    assert forall|r: int| from <= r < from + at implies !pred(#[trigger] a[r]) by {
        assert(a[from + (r - from)] == b[r - from]);
    }
    if at < b.len() {
        assert(a[from + at] == b[at]);
    }
    lemma_first_row_is(a, pred, from, from + b.len(), from + at);
}

/// Ordering the edits does not change what they do.
proof fn lemma_mid_sorted(lines: Seq<Seq<char>>, s: Seq<Edit>, from: int, k: int)
    ensures
        mid(lines, sorted::<LineEdit>(s), from, k) == mid(lines, s, from, k),
    decreases k - from,
{
    if from < k {
        lemma_mid_sorted(lines, s, from, k - 1);
        lemma_sorted_edits(s, k - 1, lines[k - 1]);
    }
}

/// What the edits of a section make of the note.
pub proof fn lemma_section_edited(lines: Seq<Seq<char>>, from: int, to: int, n: Seq<Event>)
    requires
        0 <= from <= to <= lines.len(),
        writable(n),
    ensures
        edited(lines, section_edits(lines, from, to, n)) == spliced(
            lines,
            from,
            to,
            new_section(lines, from, to, n),
        ),
{
    let raw = raw_edits(lines, from, to, n);
    let s = section_edits(lines, from, to, n);
    assert(s == sorted::<LineEdit>(raw));
    lemma_raw_edits(lines, from, to, n, from);
    lemma_sorted_within(raw, from, to);
    lemma_edited(lines, s, from, to);
    lemma_mid_sorted(lines, raw, from, to);
    lemma_sorted_edits(raw, to, Seq::empty());
}

/// What holds of the lines of the section after the edits.
#[verifier::spinoff_prover]
proof fn lemma_new_section(
    lines: Seq<Seq<char>>,
    from: int,
    to: int,
    n: Seq<Event>,
    level: nat,
)
    requires
        0 <= from <= to <= lines.len(),
        writable(n),
        single_lines(lines),
        forall|r: int| from <= r < to ==> !at_or_above(level)(#[trigger] lines[r]),
    ensures
        ({
            let got = new_section(lines, from, to, n);
            &&& forall|j: int| 0 <= j < got.len() ==> no_feed(#[trigger] got[j])
            &&& forall|j: int| 0 <= j < got.len() ==> !at_or_above(level)(#[trigger] got[j])
            &&& forall|j: int|
                0 <= j < got.len() && synced(#[trigger] got[j]) is Some && !has_id(
                    n,
                    (synced(got[j])->0).id,
                ) ==> cancelled((synced(got[j])->0).words()) is Some
            &&& got.len() > 0 ==> got.last().len() > 0 || (from < to && got.last() == lines[to - 1])
        }),
{
    let raw = raw_edits(lines, from, to, n);
    let got = new_section(lines, from, to, n);
    let p1 = |l: Seq<char>| no_feed(l);
    let p2 = |l: Seq<char>| !at_or_above(level)(l);
    let p3 = |l: Seq<char>|
        synced(l) is Some && !has_id(n, (synced(l)->0).id) ==> cancelled(
            (synced(l)->0).words(),
        ) is Some;
    assert forall|r: int| from <= r < to implies {
        let l = #[trigger] new_line(lines, from, to, n, r);
        p1(l) && p2(l) && p3(l)
    } by {
        lemma_new_line(lines, from, to, n, r);
        assert(no_feed(lines[r])) by {
            assert forall|i: int| 0 <= i < lines[r].len() implies #[trigger] lines[r][i] != '\n' by {
            }
        }
        lemma_no_feed_new_line(lines, from, to, n, r);
        let l = new_line(lines, from, to, n, r);
        assert(!at_or_above(level)(lines[r]));
        if synced(l) is Some {
            lemma_synced_no_heading(l);
        }
    }
    assert forall|i: int|
        0 <= i < n.len() && line_row(lines, from, to, (#[trigger] n[i]).id) == to implies {
        let l = event_line(n[i]);
        p1(l) && p2(l) && p3(l)
    } by {
        assert(valid_event(n[i]));
        lemma_no_feed_event_line(n[i]);
        lemma_event_line(n[i]);
        lemma_synced_no_heading(event_line(n[i]));
        assert(has_id(n, n[i].id));
    }
    lemma_mid_all(lines, from, to, n, to, p1);
    lemma_mid_all(lines, from, to, n, to, p2);
    lemma_mid_all(lines, from, to, n, to, p3);
    assert forall|j: int| 0 <= j < got.len() implies no_feed(#[trigger] got[j]) by {
        assert(p1(got[j]));
    }
    assert forall|j: int| 0 <= j < got.len() implies !at_or_above(level)(#[trigger] got[j]) by {
        assert(p2(got[j]));
    }
    assert forall|j: int|
        0 <= j < got.len() && synced(#[trigger] got[j]) is Some && !has_id(
            n,
            (synced(got[j])->0).id,
        ) implies cancelled((synced(got[j])->0).words()) is Some by {
        assert(p3(got[j]));
    }
    // The last line.
    let ins = inserted(raw, to);
    let f = fresh(lines, from, to, n);
    let fs = sorted::<CalendarEvent>(f);
    lemma_raw_edits(lines, from, to, n, to);
    lemma_additions(lines, from, to, fs, to);
    if ins.len() > 0 {
        let k = ins.len() - 1;
        let i = choose|i: int| 0 <= i < fs.len() && #[trigger] event_line(fs[i]) == ins[k];
        lemma_fresh(lines, from, to, n);
        assert(fs.contains(fs[i]));
        lemma_sorted_members::<CalendarEvent>(f, fs[i]);
        let m = choose|m: int| 0 <= m < f.len() && f[m] == fs[i];
        assert(n.contains(f[m]));
        let q = choose|q: int| 0 <= q < n.len() && n[q] == f[m];
        assert(valid_event(n[q]));
        lemma_no_feed_event_line(n[q]);
        assert(got.last() == ins[k]);
    } else if from < to {
        lemma_raw_edits(lines, from, to, n, to - 1);
        lemma_new_line(lines, from, to, n, to - 1);
        let l = new_line(lines, from, to, n, to - 1);
        assert(got.last() == l);
        if synced(l) is Some {
            lemma_parts(l);
            lemma_synced(l);
        }
    }
}

/// Reconciling again changes nothing, where the section is there.
#[verifier::spinoff_prover]
#[verifier::rlimit(40)]
proof fn lemma_again_in_section(
    note: Seq<char>,
    events: Seq<Event>,
    section: Seq<char>,
    planner_heading: Seq<char>,
    plan: Section,
    from: int,
    to: int,
)
    requires
        forall|i: int| 0 <= i < events.len() ==> valid_event(#[trigger] events[i]),
        planner(lines(note), planner_heading) == Some(plan),
        child_section(lines(note), plan, section) == Some((from, to)),
        section_name(section) == section,
    ensures
        ({
            let first = section_edits(lines(note), from, to, normal(events));
            let again = outcome(
                lines(edited_note(note, first)),
                events,
                section,
                planner_heading,
            );
            again is Some && (again->0).edits == Seq::<Edit>::empty()
        }),
{
    let l = lines(note);
    let n = normal(events);
    let first = section_edits(l, from, to, n);
    lemma_normal_writable(events);
    lemma_lines_single(note);
    lemma_bounds(l, planner_heading, section);
    let child = plan.level + 1;
    lemma_new_section(l, from, to, n, child);
    lemma_section_edited(l, from, to, n);
    let got = new_section(l, from, to, n);
    let o = spliced(l, from, to, got);
    let k = got.len() - (to - from);
    // The planner section and its child are found again.
    assert forall|j: int| 0 <= j < got.len() implies !at_or_above(plan.level)(#[trigger] got[j]) by {
        assert(!at_or_above(child)(got[j]));
    }
    lemma_spliced_planner(l, planner_heading, plan, from, to, got);
    let plan2 = Section { start: plan.start, end: plan.end + k, level: plan.level };
    assert(forall|r: int| 0 <= r < from ==> o[r] == l[r]);
    assert forall|j: int| 0 <= j < got.len() implies #[trigger] o[from + j] == got[j] by {}
    assert forall|r: int| to <= r < l.len() implies #[trigger] o[r + k] == l[r] by {}
    let v = titled_at(section, child);
    assert forall|r: int| plan.start <= r < from - 1 implies !v(#[trigger] o[r]) by {
        assert(o[r] == l[r]);
    }
    lemma_first_row_is(o, v, plan.start, plan2.end, from - 1);
    let u = at_or_above(child);
    assert forall|r: int| from <= r < to + k implies !u(#[trigger] o[r]) by {
        assert(o[from + (r - from)] == got[r - from]);
    }
    if to < plan.end {
        assert(o[to + k] == l[to]);
    }
    lemma_first_row_is(o, u, from, plan2.end, to + k);
    assert(child_section(o, plan2, section) == Some((from, to + k)));
    // Its lines are in step.
    assert forall|i: int| 0 <= i < n.len() implies line_row(
        o,
        from,
        to + k,
        (#[trigger] n[i]).id,
    ) < to + k && settled(o[line_row(o, from, to + k, n[i].id)], n[i]) by {
        lemma_first_settled(l, from, to, n, i);
        lemma_first_row_offset(o, got, carries(n[i].id), from);
        lemma_first_row(got, carries(n[i].id), 0, got.len() as int);
        let at = first_row(got, carries(n[i].id), 0, got.len() as int);
        assert(o[from + at] == got[at]);
    }
    assert forall|r: int|
        from <= r < to + k && synced(#[trigger] o[r]) is Some && !has_id(
            n,
            (synced(o[r])->0).id,
        ) implies cancelled((synced(o[r])->0).words()) is Some by {
        assert(o[from + (r - from)] == got[r - from]);
    }
    // The note's text reads back as these lines.
    assert(single_lines(o)) by {
        assert forall|i: int, j: int| 0 <= i < o.len() && 0 <= j < o[i].len() implies
            #[trigger] o[i][j] != '\n' by {
            if i < from {
                assert(l[i][j] != '\n');
            } else if i < from + got.len() {
                assert(o[from + (i - from)] == got[i - from]);
                assert(no_feed(got[i - from]));
            } else {
                assert(o[(i - k) + k] == l[i - k]);
                assert(l[i - k][j] != '\n');
            }
        }
    }
    assert(note.len() > 0);
    if note.last() != '\n' {
        lemma_last_line(note);
        if to < l.len() {
            assert(o.last() == l.last());
        } else if got.len() > 0 {
            assert(o.last() == got.last());
        } else {
            assert(o.last() == l[from - 1]);
            assert(from == to);
        }
    }
    lemma_reread_note(note, first);
    lemma_reread_done(
        o,
        lines(edited_note(note, first)),
        events,
        planner_heading,
        section,
        plan2,
        from,
        to + k,
    );
}

/// The heading that creates the section is found again by its text.
proof fn lemma_section_heading(level: nat, section: Seq<char>)
    requires
        1 <= level <= 6,
        no_feed(section),
    ensures
        titled_at(section, level)(hashes(level) + seq![' '] + section),
        no_feed(hashes(level) + seq![' '] + section),
{
    let l = hashes(level) + seq![' '] + section;
    assert(forall|i: int| 0 <= i < level ==> l[i] == '#');
    assert(l[level as int] == ' ');
    lemma_hash_run_is(l, level as int);
    assert(is_white(' '));
    let rest = l.skip(level as int);
    assert(rest =~= seq![' '] + section);
    // The space in front does not count.
    lemma_lead(section);
    let k = lead(section) as int;
    assert forall|i: int| 0 <= i < k + 1 implies is_white(#[trigger] rest[i]) by {
        if i > 0 {
            assert(rest[i] == section[i - 1]);
        }
    }
    if k + 1 < rest.len() {
        assert(rest[k + 1] == section[k]);
    }
    lemma_lead_is(rest, k + 1);
    assert(rest.skip(k + 1) =~= section.skip(k));
    assert(no_feed(hashes(level)));
    assert(no_feed(seq![' ']));
    lemma_no_feed_add(hashes(level), seq![' ']);
    lemma_no_feed_add(hashes(level) + seq![' '], section);
}

/// The lines of the section that is created.
spec fn creation_lines(n: Seq<Event>, tail: Seq<Seq<char>>) -> Seq<Seq<char>> {
    seq![Seq::<char>::empty()] + event_lines(sorted::<CalendarEvent>(n)) + tail
}

/// What holds of the lines of the section that is created.
#[verifier::spinoff_prover]
proof fn lemma_creation_lines(n: Seq<Event>, tail: Seq<Seq<char>>, level: nat)
    requires
        writable(n),
        forall|j: int| 0 <= j < tail.len() ==> (#[trigger] tail[j]).len() == 0,
    ensures
        ({
            let got = creation_lines(n, tail);
            &&& forall|j: int| 0 <= j < got.len() ==> no_feed(#[trigger] got[j])
            &&& forall|j: int| 0 <= j < got.len() ==> !at_or_above(level)(#[trigger] got[j])
            &&& forall|j: int|
                0 <= j < got.len() && synced(#[trigger] got[j]) is Some ==> has_id(
                    n,
                    (synced(got[j])->0).id,
                )
            &&& forall|i: int|
                0 <= i < n.len() ==> {
                    let at = first_row(got, carries((#[trigger] n[i]).id), 0, got.len() as int);
                    at < got.len() && settled(got[at], n[i])
                }
            &&& n.len() > 0 && tail.len() == 0 ==> got.last().len() > 0
        }),
{
    let got = creation_lines(n, tail);
    let fs = sorted::<CalendarEvent>(n);
    lemma_sorted_keeps::<CalendarEvent>(n);
    let ls = event_lines(fs);
    // Each line is blank, or that of an event.
    assert forall|j: int| 0 <= j < got.len() implies (#[trigger] got[j]).len() == 0 || exists|q: int|
        0 <= q < n.len() && #[trigger] event_line(n[q]) == got[j] by {
        if 1 <= j < 1 + ls.len() {
            assert(got[j] == event_line(fs[j - 1]));
            assert(fs.contains(fs[j - 1]));
            lemma_sorted_members::<CalendarEvent>(n, fs[j - 1]);
            let q = choose|q: int| 0 <= q < n.len() && n[q] == fs[j - 1];
            assert(event_line(n[q]) == got[j]);
        } else if j >= 1 + ls.len() {
            assert(got[j] == tail[j - 1 - ls.len()]);
        }
    }
    assert forall|j: int| 0 <= j < got.len() implies no_feed(#[trigger] got[j]) && !at_or_above(
        level,
    )(got[j]) && (synced(got[j]) is Some ==> has_id(n, (synced(got[j])->0).id)) by {
        if got[j].len() == 0 {
            assert(synced(got[j]) is None) by {
                lemma_synced(got[j]);
            }
        } else {
            let q = choose|q: int| 0 <= q < n.len() && #[trigger] event_line(n[q]) == got[j];
            assert(valid_event(n[q]));
            lemma_event_line(n[q]);
            lemma_no_feed_event_line(n[q]);
            lemma_synced_no_heading(got[j]);
            assert(has_id(n, n[q].id));
        }
    }
    assert forall|i: int| 0 <= i < n.len() implies {
        let at = first_row(got, carries((#[trigger] n[i]).id), 0, got.len() as int);
        at < got.len() && settled(got[at], n[i])
    } by {
        assert(valid_event(n[i]));
        lemma_event_line(n[i]);
        let id = n[i].id;
        lemma_sorted_members::<CalendarEvent>(n, n[i]);
        assert(n.contains(n[i]));
        let k = choose|k: int| 0 <= k < fs.len() && fs[k] == n[i];
        assert(got[1 + k] == event_line(n[i]));
        assert(carries(id)(got[1 + k]));
        lemma_first_row(got, carries(id), 0, got.len() as int);
        let at = first_row(got, carries(id), 0, got.len() as int);
        if at == got.len() {
            assert(!carries(id)(got[1 + k]));
        }
        assert(carries(id)(got[at]));
        assert(got[at].len() > 0) by {
            lemma_synced(got[at]);
        }
        let q = choose|q: int| 0 <= q < n.len() && #[trigger] event_line(n[q]) == got[at];
        assert(valid_event(n[q]));
        lemma_event_line(n[q]);
        if q < i {
            assert(n[q].id != n[i].id);
        } else if i < q {
            assert(n[i].id != n[q].id);
        }
    }
    if n.len() > 0 && tail.len() == 0 {
        let k = fs.len() - 1;
        assert(got.last() == event_line(fs[k]));
        assert(fs.contains(fs[k]));
        lemma_sorted_members::<CalendarEvent>(n, fs[k]);
        let q = choose|q: int| 0 <= q < n.len() && n[q] == fs[k];
        assert(valid_event(n[q]));
        lemma_no_feed_event_line(n[q]);
    }
}

/// Reconciling again changes nothing, where the section was created.
#[verifier::spinoff_prover]
#[verifier::rlimit(60)]
proof fn lemma_again_created(
    note: Seq<char>,
    events: Seq<Event>,
    section: Seq<char>,
    planner_heading: Seq<char>,
    plan: Section,
)
    requires
        forall|i: int| 0 <= i < events.len() ==> valid_event(#[trigger] events[i]),
        planner(lines(note), planner_heading) == Some(plan),
        child_section(lines(note), plan, section) is None,
        section_name(section) == section,
        normal(events).len() > 0,
        plan.level < 6,
        no_feed(section),
    ensures
        ({
            let first = inserts_at(
                plan.end,
                section_block(lines(note), plan, section, normal(events)),
            );
            let again = outcome(
                lines(edited_note(note, first)),
                events,
                section,
                planner_heading,
            );
            again is Some && (again->0).edits == Seq::<Edit>::empty()
        }),
{
    let l = lines(note);
    let n = normal(events);
    let row = plan.end;
    let child = plan.level + 1;
    let block = section_block(l, plan, section, n);
    let first = inserts_at(row, block);
    lemma_normal_writable(events);
    lemma_lines_single(note);
    lemma_bounds(l, planner_heading, section);
    lemma_block(row, block);
    lemma_edited(l, first, row, row);
    assert(mid(l, first, row, row) + inserted(first, row) =~= block);
    let o = spliced(l, row, row, block);
    assert(edited(l, first) =~= o);
    // The block: a blank line or none, the heading, the rest.
    let front = if row > 0 && !is_blank(l[row - 1]) {
        seq![Seq::<char>::empty()]
    } else {
        Seq::empty()
    };
    let tail = if row < l.len() && !is_blank(l[row]) {
        seq![Seq::<char>::empty()]
    } else {
        Seq::empty()
    };
    let title = hashes(child) + seq![' '] + section;
    lemma_section_heading(child, section);
    let got = creation_lines(n, tail);
    lemma_creation_lines(n, tail, child);
    assert(block =~= front + seq![title] + got);
    let f = front.len() as int;
    assert forall|j: int| 0 <= j < block.len() implies no_feed(#[trigger] block[j]) && !at_or_above(
        plan.level,
    )(block[j]) by {
        if j < f {
            assert(block[j] =~= Seq::<char>::empty());
            assert(heading(block[j]) is None);
        } else if j == f {
            assert(block[j] == title);
        } else {
            assert(block[j] == got[j - f - 1]);
            assert(!at_or_above(child)(got[j - f - 1]));
        }
    }
    lemma_spliced_planner(l, planner_heading, plan, row, row, block);
    let plan2 = Section { start: plan.start, end: row + block.len(), level: plan.level };
    assert(forall|r: int| 0 <= r < row ==> o[r] == l[r]);
    assert forall|j: int| 0 <= j < block.len() implies #[trigger] o[row + j] == block[j] by {}
    let k = block.len() as int;
    assert forall|r: int| row <= r < l.len() implies #[trigger] o[r + k] == l[r] by {}
    let v = titled_at(section, child);
    assert forall|r: int| plan.start <= r < row + f implies !v(#[trigger] o[r]) by {
        if r < row {
            assert(o[r] == l[r]);
        } else {
            assert(o[row + (r - row)] == block[r - row]);
            assert(block[r - row] =~= Seq::<char>::empty());
            assert(heading(block[r - row]) is None);
        }
    }
    assert(o[row + f] == title);
    lemma_first_row_is(o, v, plan.start, plan2.end, row + f);
    let from = row + f + 1;
    let to = plan2.end;
    assert forall|j: int| 0 <= j < got.len() implies #[trigger] o[from + j] == got[j] by {
        assert(o[row + (f + 1 + j)] == block[f + 1 + j]);
    }
    assert(to == from + got.len());
    let u = at_or_above(child);
    assert forall|r: int| from <= r < to implies !u(#[trigger] o[r]) by {
        assert(o[from + (r - from)] == got[r - from]);
    }
    lemma_first_row_is(o, u, from, to, to);
    assert(child_section(o, plan2, section) == Some((from, to)));
    assert forall|i: int| 0 <= i < n.len() implies line_row(o, from, to, (#[trigger] n[i]).id) < to
        && settled(o[line_row(o, from, to, n[i].id)], n[i]) by {
        lemma_first_row_offset(o, got, carries(n[i].id), from);
        lemma_first_row(got, carries(n[i].id), 0, got.len() as int);
        let at = first_row(got, carries(n[i].id), 0, got.len() as int);
        assert(o[from + at] == got[at]);
    }
    assert forall|r: int|
        from <= r < to && synced(#[trigger] o[r]) is Some && !has_id(
            n,
            (synced(o[r])->0).id,
        ) implies cancelled((synced(o[r])->0).words()) is Some by {
        assert(o[from + (r - from)] == got[r - from]);
    }
    assert(single_lines(o)) by {
        assert forall|i: int, j: int| 0 <= i < o.len() && 0 <= j < o[i].len() implies
            #[trigger] o[i][j] != '\n' by {
            if i < row {
                assert(l[i][j] != '\n');
            } else if i < row + k {
                assert(o[row + (i - row)] == block[i - row]);
                assert(no_feed(block[i - row]));
            } else {
                assert(o[(i - k) + k] == l[i - k]);
                assert(l[i - k][j] != '\n');
            }
        }
    }
    assert(note.len() > 0);
    if note.last() != '\n' {
        lemma_last_line(note);
        if row < l.len() {
            assert(o.last() == l.last());
        } else {
            assert(o.last() == block.last());
            assert(block.last() == got.last());
        }
    }
    lemma_reread_note(note, first);
    lemma_reread_done(
        o,
        lines(edited_note(note, first)),
        events,
        planner_heading,
        section,
        plan2,
        from,
        to,
    );
}

/// The section's name has no line feed, and is its own.
proof fn lemma_section_name(section: Seq<char>)
    ensures
        no_feed(section_name(section)),
        section_name(section_name(section)) == section_name(section),
{
    lemma_one_line(section);
    let name = section_name(section);
    if name == section {
        assert forall|i: int| 0 <= i < name.len() implies #[trigger] name[i] != '\n' by {
            if name[i] == '\n' && !section.contains('\n') {
                assert(section.contains(section[i]));
            }
        }
    }
    if name.contains('\n') {
        let i = choose|i: int| 0 <= i < name.len() && name[i] == '\n';
        assert(name[i] != '\n');
    }
}

/// Reconciling is idempotent: once a note's edits are applied, reconciling the
/// note with the same events gives no edit.
pub proof fn reconcile_is_idempotent(
    note: Seq<char>,
    events: Seq<Event>,
    section: Seq<char>,
    planner_heading: Seq<char>,
)
    requires
        forall|i: int| 0 <= i < events.len() ==> valid_event(#[trigger] events[i]),
        outcome(lines(note), events, section, planner_heading) is Some,
    ensures
        ({
            let first = outcome(lines(note), events, section, planner_heading)->0;
            let again = outcome(
                lines(edited_note(note, first.edits)),
                events,
                section,
                planner_heading,
            );
            again is Some && (again->0).edits == Seq::<Edit>::empty()
        }),
{
    let l = lines(note);
    let plan = planner(l, planner_heading)->0;
    let n = normal(events);
    let name = section_name(section);
    lemma_section_name(section);
    match child_section(l, plan, name) {
        Some((from, to)) => {
            lemma_again_in_section(note, events, name, planner_heading, plan, from, to);
        },
        None => {
            if n.len() > 0 && plan.level < 6 {
                lemma_again_created(note, events, name, planner_heading, plan);
            } else {
                // Nothing was written: the note's lines are the same.
                let first = Seq::<Edit>::empty();
                assert(within(first, 0, 0));
                lemma_edited(l, first, 0, 0);
                let o = edited(l, first);
                assert(o =~= l);
                lemma_bounds(l, planner_heading, name);
                lemma_lines_single(note);
                assert(note.len() > 0);
                if note.last() != '\n' {
                    lemma_last_line(note);
                }
                lemma_reread_note(note, first);
                lemma_reread(l, lines(edited_note(note, first)), planner_heading, name);
            }
        },
    }
}

/// A hostile title cannot forge a marker: the line that an event gets reads
/// back as that event's, whatever its title holds.
pub proof fn written_lines_carry_their_id(event: Event)
    requires
        valid_event(event),
    ensures
        synced(event_line(cleaned(event))) is Some,
        (synced(event_line(cleaned(event)))->0).id == event.id,
{
    lemma_one_line(crate::clean::scrubbed(event.title, "<!--"@));
    lemma_event_line(cleaned(event));
}

/// The section is never created without an event to write, nor under a heading
/// that can have no child heading.
pub proof fn no_section_without_need(
    lines: Seq<Seq<char>>,
    events: Seq<Event>,
    section: Seq<char>,
    planner_heading: Seq<char>,
)
    requires
        planner(lines, planner_heading) is Some,
        child_section(
            lines,
            planner(lines, planner_heading)->0,
            section_name(section),
        ) is None,
        events.len() == 0 || (planner(lines, planner_heading)->0).level == 6,
    ensures
        outcome(lines, events, section, planner_heading) == Some(
            crate::reconcile::Outcome {
                edits: Seq::<Edit>::empty(),
                diverged: Seq::<crate::calendar::Diverged>::empty(),
            },
        ),
{
}

/// Inside the section, only synced lines are rewritten, and new lines go
/// nowhere else.
pub proof fn edits_stay_in_the_section(
    lines: Seq<Seq<char>>,
    from: int,
    to: int,
    n: Seq<Event>,
    edit: Edit,
)
    requires
        0 <= from <= to <= lines.len(),
        section_edits(lines, from, to, n).contains(edit),
    ensures
        edit.replaces ==> from <= edit.row < to && synced(lines[edit.row]) is Some,
        !edit.replaces ==> from <= edit.row <= to,
{
    let raw = raw_edits(lines, from, to, n);
    lemma_sorted_members::<LineEdit>(raw, edit);
    let c = changes(lines, from, to, n);
    let k = cancels(lines, from, to, n);
    let fs = sorted::<CalendarEvent>(fresh(lines, from, to, n));
    let a = additions(lines, from, to, fs);
    lemma_changes_within(lines, from, to, n);
    lemma_changes_synced(lines, from, to, n);
    lemma_cancels(lines, from, to, n, from, Seq::empty());
    lemma_cancels_synced(lines, from, to, n);
    lemma_additions(lines, from, to, fs, from);
    let i = choose|i: int| 0 <= i < raw.len() && raw[i] == edit;
    if i < c.len() {
        assert(raw[i] == c[i]);
    } else if i < c.len() + k.len() {
        assert(raw[i] == k[i - c.len()]);
    } else {
        assert(raw[i] == a[i - c.len() - k.len()]);
    }
}

proof fn lemma_changes_synced(lines: Seq<Seq<char>>, from: int, to: int, n: Seq<Event>)
    requires
        from <= to,
    ensures
        forall|i: int|
            0 <= i < changes(lines, from, to, n).len() ==> synced(
                lines[(#[trigger] changes(lines, from, to, n)[i]).row],
            ) is Some,
    decreases n.len(),
{
    if n.len() > 0 {
        lemma_changes_synced(lines, from, to, n.drop_last());
        lemma_line_row(lines, from, to, n.last().id);
        let c = changes(lines, from, to, n.drop_last());
        let all = changes(lines, from, to, n);
        assert forall|i: int| 0 <= i < all.len() implies synced(
            lines[(#[trigger] all[i]).row],
        ) is Some by {
            if i < c.len() {
                assert(all[i] == c[i]);
            }
        }
    }
}

proof fn lemma_cancels_synced(lines: Seq<Seq<char>>, from: int, to: int, n: Seq<Event>)
    ensures
        forall|i: int|
            0 <= i < cancels(lines, from, to, n).len() ==> synced(
                lines[(#[trigger] cancels(lines, from, to, n)[i]).row],
            ) is Some,
    decreases to - from,
{
    if from < to {
        lemma_cancels_synced(lines, from, to - 1, n);
        let c = cancels(lines, from, to - 1, n);
        let all = cancels(lines, from, to, n);
        assert forall|i: int| 0 <= i < all.len() implies synced(
            lines[(#[trigger] all[i]).row],
        ) is Some by {
            if i < c.len() {
                assert(all[i] == c[i]);
            }
        }
    }
}

/// A line whose title was rewritten is left as it is, and reported.
pub proof fn renamed_lines_are_frozen(
    lines: Seq<Seq<char>>,
    from: int,
    to: int,
    events: Seq<Event>,
    i: int,
)
    requires
        0 <= from <= to <= lines.len(),
        forall|k: int| 0 <= k < events.len() ==> valid_event(#[trigger] events[k]),
        0 <= i < normal(events).len(),
        line_row(lines, from, to, normal(events)[i].id) < to,
        (synced(lines[line_row(lines, from, to, normal(events)[i].id)])->0).update(
            normal(events)[i],
        ) is None,
    ensures
        ({
            let event = normal(events)[i];
            let row = line_row(lines, from, to, event.id);
            &&& rewritten(section_edits(lines, from, to, normal(events)), row, lines[row])
                == lines[row]
            &&& renames(lines, from, to, normal(events)).contains(
                crate::calendar::Diverged { id: event.id, line: lines[row], title: event.title },
            )
        }),
{
    let n = normal(events);
    lemma_normal_writable(events);
    let id = n[i].id;
    let row = line_row(lines, from, to, id);
    lemma_line_row(lines, from, to, id);
    lemma_raw_edits(lines, from, to, n, row);
    lemma_sorted_edits(raw_edits(lines, from, to, n), row, lines[row]);
    assert(has_id(n, id));
    let k = choose|k: int| 0 <= k < n.len() && #[trigger] n[k].id == id;
    if k < i {
        assert(n[k].id != n[i].id);
    } else if i < k {
        assert(n[i].id != n[k].id);
    }
    lemma_renames(lines, from, to, n, i);
}

proof fn lemma_renames(lines: Seq<Seq<char>>, from: int, to: int, n: Seq<Event>, i: int)
    requires
        0 <= i < n.len(),
        line_row(lines, from, to, n[i].id) < to,
        (synced(lines[line_row(lines, from, to, n[i].id)])->0).update(n[i]) is None,
    ensures
        renames(lines, from, to, n).contains(
            crate::calendar::Diverged {
                id: n[i].id,
                line: lines[line_row(lines, from, to, n[i].id)],
                title: n[i].title,
            },
        ),
    decreases n.len(),
{
    let rest = n.drop_last();
    let r = renames(lines, from, to, rest);
    let all = renames(lines, from, to, n);
    let d = crate::calendar::Diverged {
        id: n[i].id,
        line: lines[line_row(lines, from, to, n[i].id)],
        title: n[i].title,
    };
    if i < rest.len() {
        assert(rest[i] == n[i]);
        lemma_renames(lines, from, to, rest, i);
        let k = choose|k: int| 0 <= k < r.len() && r[k] == d;
        assert(all[k] == d);
    } else {
        assert(all[all.len() - 1] == d);
    }
}

/// Where row `row` of a note comes to stand when edits are applied.
pub open spec fn new_place(lines: Seq<Seq<char>>, edits: Seq<Edit>, row: int) -> int {
    (crate::reconcile::edited_rows(lines, edits, row) + inserted(edits, row)).len() as int
}

/// Applying edits drops no line and reorders none: every row of the note is
/// there again, as it was or rewritten, behind the row before it.
pub proof fn applying_edits_keeps_every_line(lines: Seq<Seq<char>>, edits: Seq<Edit>, row: int)
    requires
        0 <= row < lines.len(),
    ensures
        new_place(lines, edits, row) < edited(lines, edits).len(),
        edited(lines, edits)[new_place(lines, edits, row)] == rewritten(edits, row, lines[row]),
        row > 0 ==> new_place(lines, edits, row - 1) < new_place(lines, edits, row),
{
    lemma_row_kept(lines, edits, row, lines.len() as int);
    let rows = crate::reconcile::edited_rows(lines, edits, lines.len() as int);
    assert(edited(lines, edits)[new_place(lines, edits, row)] == rows[new_place(
        lines,
        edits,
        row,
    )]);
}

proof fn lemma_row_kept(lines: Seq<Seq<char>>, edits: Seq<Edit>, row: int, n: int)
    requires
        0 <= row < n <= lines.len(),
    ensures
        new_place(lines, edits, row) < crate::reconcile::edited_rows(lines, edits, n).len(),
        crate::reconcile::edited_rows(lines, edits, n)[new_place(lines, edits, row)] == rewritten(
            edits,
            row,
            lines[row],
        ),
        row > 0 ==> new_place(lines, edits, row - 1) < new_place(lines, edits, row),
    decreases n,
{
    if row < n - 1 {
        lemma_row_kept(lines, edits, row, n - 1);
    }
}

/// A marker suffix that is not known is left alone.
pub proof fn unknown_suffix_is_kept(line: Seq<char>, event: Event)
    requires
        synced(line) is Some,
        (synced(line)->0).suffix is Some,
        crate::synced_line::kind_of_suffix((synced(line)->0).suffix->0) is None,
        (synced(line)->0).update(event) is Some,
    ensures
        crate::synced_line::line_marker((synced(line)->0).update(event)->0) is Some,
        (crate::synced_line::line_marker((synced(line)->0).update(event)->0)->0).1 == (synced(
            line,
        )->0).id,
        (crate::synced_line::line_marker((synced(line)->0).update(event)->0)->0).2 == (synced(
            line,
        )->0).suffix,
{
    let p = synced(line)->0;
    lemma_parts(line);
    lemma_synced(line);
    let l = p.update(event)->0;
    if l != line {
        let t = p.aim(event)->0;
        let a = line.take(p.content_start()) + content(event_token(event), t) + line.subrange(
            p.text.1,
            p.marker.0,
        );
        assert(l =~= a + mark(p.id, p.suffix) + line.skip(p.marker.1));
        crate::line_laws::lemma_line_marker(a, p.id, p.suffix, line.skip(p.marker.1));
    }
}

/// New lines are written in the order of their events: by start, then end,
/// title and id.
pub proof fn new_lines_are_in_order(events: Seq<Event>)
    ensures
        ascending::<CalendarEvent>(sorted::<CalendarEvent>(events)),
{
    assert forall|a: Event, b: Event| #[trigger] crate::calendar::event_before(a, b) implies
        !crate::calendar::event_before(b, a) by {
        lemma_event_order(a, b, a);
    }
    assert forall|a: Event, b: Event, c: Event| #[trigger] crate::calendar::event_before(a, b)
        && !(#[trigger] crate::calendar::event_before(c, b)) implies crate::calendar::event_before(
        a,
        c,
    ) by {
        lemma_event_order(a, b, c);
    }
    lemma_sorted_ascending::<CalendarEvent>(events);
}

pub proof fn lemma_event_order(a: Event, b: Event, c: Event)
    requires
        crate::calendar::event_before(a, b),
    ensures
        !crate::calendar::event_before(b, a),
        !crate::calendar::event_before(c, b) ==> crate::calendar::event_before(a, c),
{
    lemma_text_order(a.title, b.title, c.title);
    lemma_text_order(a.id, b.id, c.id);
}

proof fn lemma_text_order(a: Seq<char>, b: Seq<char>, c: Seq<char>)
    ensures
        crate::format::text_before(a, b) ==> !crate::format::text_before(b, a),
        crate::format::text_before(a, b) && !crate::format::text_before(c, b)
            ==> crate::format::text_before(a, c),
        !crate::format::text_before(c, b) && c != b ==> crate::format::text_before(b, c),
{
    if crate::format::text_before(a, b) {
        if crate::format::text_before(b, a) {
            crate::format::lemma_text_before_transitive(a, b, a);
        }
        crate::format::lemma_text_before_irreflexive(a);
    }
    crate::format::lemma_text_before_total(c, b);
    if crate::format::text_before(a, b) && crate::format::text_before(b, c) {
        crate::format::lemma_text_before_transitive(a, b, c);
    }
}

/// A row without a rewrite keeps its line.
proof fn lemma_not_rewritten(edits: Seq<Edit>, row: int, line: Seq<char>)
    requires
        forall|i: int| 0 <= i < edits.len() && (#[trigger] edits[i]).replaces ==> edits[i].row != row,
    ensures
        rewritten(edits, row, line) == line,
    decreases edits.len(),
{
    if edits.len() > 0 {
        let rest = edits.drop_last();
        assert(!(edits[edits.len() - 1].replaces && edits[edits.len() - 1].row == row));
        assert forall|i: int| 0 <= i < rest.len() && (#[trigger] rest[i]).replaces implies rest[i].row
            != row by {
            assert(rest[i] == edits[i]);
        }
        lemma_not_rewritten(rest, row, line);
    }
}

/// The user's lines are the user's: a reconciliation changes no line of the
/// note but the synced lines of its own section.
pub proof fn only_synced_lines_change(
    lines: Seq<Seq<char>>,
    events: Seq<Event>,
    section: Seq<char>,
    planner_heading: Seq<char>,
    row: int,
)
    requires
        0 <= row < lines.len(),
        outcome(lines, events, section, planner_heading) is Some,
    ensures
        ({
            let edits = (outcome(lines, events, section, planner_heading)->0).edits;
            rewritten(edits, row, lines[row]) != lines[row] ==> synced(lines[row]) is Some && match
            child_section(lines, planner(lines, planner_heading)->0, section_name(section)) {
                Some((from, to)) => from <= row < to,
                None => false,
            }
        }),
{
    let edits = (outcome(lines, events, section, planner_heading)->0).edits;
    let plan = planner(lines, planner_heading)->0;
    lemma_bounds(lines, planner_heading, section_name(section));
    match child_section(lines, plan, section_name(section)) {
        Some((from, to)) => {
            if !(from <= row < to && synced(lines[row]) is Some) {
                assert forall|i: int| 0 <= i < edits.len() && (#[trigger] edits[i]).replaces implies edits[i].row
                    != row by {
                    assert(edits.contains(edits[i]));
                    edits_stay_in_the_section(lines, from, to, normal(events), edits[i]);
                }
                lemma_not_rewritten(edits, row, lines[row]);
            }
        },
        None => {
            lemma_not_rewritten(edits, row, lines[row]);
        },
    }
}

/// Cancelling loses none of the user's words: once an event comes back, the
/// line that was struck through has the text again that it had, unless that
/// text held the cancellation mark itself, or the struck line, taken with its
/// time token, reads as an all-day event's own; an old time goes either way.
pub proof fn cancelling_keeps_the_words(line: Seq<char>, event: Event)
    requires
        synced(line) is Some,
        event.title.len() > 0 || event.time is Some,
        trailing_of((synced(line)->0).words(), event.title) is Some,
        crate::text::find(
            (synced(line)->0).words() + "~~ (cancelled)"@,
            "~~ (cancelled)"@,
        ) == Some((synced(line)->0).words().len() as int),
        event.time is Some || trailing_of(
            (synced((synced(line)->0).cancelled_line())->0).whole(),
            event.title,
        ) is None,
    ensures
        ({
            let struck = (synced(line)->0).cancelled_line();
            &&& synced(struck) is Some
            &&& (synced(struck)->0).aim(event) == Some(
                if event.time is Some {
                    (synced(line)->0).words()
                } else {
                    untimed((synced(line)->0).words(), event.title)
                },
            )
        }),
{
    lemma_cancelled_line(line);
    lemma_parts(line);
    reveal_strlit("~~");
    reveal_strlit("~~ (cancelled)");
    let words = (synced(line)->0).words();
    let title = event.title;
    let text = "~~"@ + words + "~~ (cancelled)"@;
    assert(text.subrange(0, 2) =~= "~~"@);
    assert(text.skip(2) =~= words + "~~ (cancelled)"@);
    let inner = text.skip(2);
    assert(inner.take(words.len() as int) =~= words);
    assert(inner.skip((words.len() + 14) as int) =~= Seq::<char>::empty());
    crate::settle::lemma_tight(words);
    if title.len() > 0 {
        let tail = trailing_of(words, title)->0;
        assert(words.subrange(0, title.len() as int) =~= title);
        assert(title + tail =~= words);
        assert(tail + Seq::<char>::empty() =~= tail);
        lemma_struck_is_not_titled(words, title);
    } else {
        crate::settle::lemma_tight(text);
        assert(words + Seq::<char>::empty() =~= words);
        reveal_with_fuel(plain, 2);
        lemma_unmarked(words);
    }
}

/// A text that holds no cancellation mark is not the cancelled form.
proof fn lemma_unmarked(words: Seq<char>)
    requires
        crate::text::find(words + "~~ (cancelled)"@, "~~ (cancelled)"@) == Some(
            words.len() as int,
        ),
    ensures
        cancelled(words) is None,
{
    reveal_strlit("~~");
    reveal_strlit("~~ (cancelled)");
    if cancelled(words) is Some {
        let mark = "~~ (cancelled)"@;
        let inner = words.skip(2);
        let end = crate::text::find(inner, mark)->0;
        crate::text::lemma_find_from(inner, mark, 0);
        crate::text::lemma_find_from(words + mark, mark, 0);
        assert((words + mark).subrange(end + 2, end + 16) =~= inner.subrange(end, end + 14));
        assert(!crate::text::matches_at(words + mark, mark, end + 2));
    }
}

/// The words behind the title of an all-day event come back too where that
/// title begins with a time, which the line has for its token.
pub proof fn cancelling_keeps_the_words_behind_a_time(line: Seq<char>, event: Event)
    requires
        synced(line) is Some,
        event.title.len() > 0,
        event.time is None,
        (synced(line)->0).token_text() is Some,
        trailing_of((synced(line)->0).words(), event.title) is None,
        trailing_of(
            content((synced(line)->0).token_text(), (synced(line)->0).words()),
            event.title,
        ) is Some,
        crate::text::find(
            (synced(line)->0).words() + "~~ (cancelled)"@,
            "~~ (cancelled)"@,
        ) == Some((synced(line)->0).words().len() as int),
        trailing_of(
            (synced((synced(line)->0).cancelled_line())->0).whole(),
            event.title,
        ) is None,
    ensures
        ({
            let struck = (synced(line)->0).cancelled_line();
            &&& synced(struck) is Some
            &&& (synced(struck)->0).aim(event) == Some(
                untimed(
                    content((synced(line)->0).token_text(), (synced(line)->0).words()),
                    event.title,
                ),
            )
        }),
{
    lemma_cancelled_line(line);
    lemma_parts(line);
    lemma_synced(line);
    reveal_strlit("~~");
    reveal_strlit("~~ (cancelled)");
    let p = synced(line)->0;
    let words = p.words();
    let title = event.title;
    let tok = p.token_text()->0;
    let shown = content(p.token_text(), words);
    let text = "~~"@ + words + "~~ (cancelled)"@;
    assert(text.subrange(0, 2) =~= "~~"@);
    assert(text.skip(2) =~= words + "~~ (cancelled)"@);
    let inner = text.skip(2);
    assert(inner.take(words.len() as int) =~= words);
    assert(inner.skip((words.len() + 14) as int) =~= Seq::<char>::empty());
    let tail = trailing_of(shown, title)->0;
    assert(shown.subrange(0, title.len() as int) =~= title);
    assert(title + tail =~= shown);
    assert(tail + Seq::<char>::empty() =~= tail);
    let before = line.subrange(p.content_start(), p.marker.0);
    assert(tok[0] == before[0]);
    assert(crate::format::is_digit(before[0])) by {
        reveal(crate::synced_line::time_token);
    }
    assert(!is_white(tok.last())) by {
        crate::settle::lemma_token_ends(before);
    }
    assert(shown[0] == tok[0]);
    if words.len() > 0 {
        assert(shown.last() == words.last());
    } else {
        assert(shown == tok);
    }
    crate::settle::lemma_tight(shown);
    if trailing_of(text, title) is Some {
        assert(text.subrange(0, title.len() as int)[0] == '~');
    }
}

/// A text that was struck through does not begin with its own title.
proof fn lemma_struck_is_not_titled(words: Seq<char>, title: Seq<char>)
    requires
        title.len() > 0,
        trailing_of(words, title) is Some,
    ensures
        trailing_of("~~"@ + words + "~~ (cancelled)"@, title) is None,
{
    reveal_strlit("~~");
    reveal_strlit("~~ (cancelled)");
    let text = "~~"@ + words + "~~ (cancelled)"@;
    let n = title.len() as int;
    if trailing_of(text, title) is Some {
        assert(text.subrange(0, n) =~= title);
        assert(words.subrange(0, n) =~= title);
        assert(("~~"@ + words).subrange(0, n) =~= text.subrange(0, n));
        lemma_all_tildes(words, title, n);
        assert(text.skip(n)[0] == text[n]);
        if n >= 2 {
            assert(text[n] == words[n - 2]);
            assert(words[n - 2] == words.subrange(0, n)[n - 2]);
        }
        assert(!is_white('~'));
    }
}

proof fn lemma_all_tildes(words: Seq<char>, title: Seq<char>, k: int)
    requires
        0 <= k <= title.len() <= words.len(),
        words.subrange(0, title.len() as int) == title,
        title.len() <= ("~~"@ + words).len(),
        ("~~"@ + words).subrange(0, title.len() as int) == title,
    ensures
        forall|i: int| 0 <= i < k ==> #[trigger] title[i] == '~',
    decreases k,
{
    reveal_strlit("~~");
    if k > 0 {
        lemma_all_tildes(words, title, k - 1);
        let x = "~~"@ + words;
        assert(title[k - 1] == x.subrange(0, title.len() as int)[k - 1]);
        assert(title[k - 1] == x[k - 1]);
        if k >= 3 {
            assert(x[k - 1] == words[k - 3]);
            assert(words[k - 3] == words.subrange(0, title.len() as int)[k - 3]);
            assert(title[k - 3] == '~');
        }
    }
}

} // verus!
