//! What holds of the services and of what they show: nothing of an answer is lost,
//! rows say what a state is and offer the way out, questions are answered with
//! what was chosen.

use vstd::prelude::*;
use crate::calendar::Diverged;
use crate::calendar_service::{
    chosen_ids, connect_writes, diverged_ids, fresh_divergences, held_before, log_fields,
    matches_query, matching, with_entries, CalendarListEntry,
};
use crate::elicitation::{
    asked, first_of, marked, said, stepped, Asked, ElicitationMode, ElicitationRequest,
    PermissionKind, PropertySchema, Said,
};
use crate::format::{decimal, lowercase};
use crate::gmail_service::{note_steps, Landing};
use crate::inbox::{Plan, Record};
use crate::inbox_service::{
    inbox_landing, is_within, item_records, poll_end, with_reply, Gathered, Reply,
};
use crate::json::json_object;
use crate::status_row::{ago, calendar_parts, gmail_parts, inbox_parts, since, Part, RowAction};
use crate::sync::{Ended, State};
use crate::text::{begins, ends, has, lemma_has, lemma_has_found, lemma_has_itself, trim};
use crate::toml_file::{Change, Node};

verus! {

/// How long ago a moment was is said in minutes within the hour, then in hours.
pub proof fn ages_are_told(h: int, m: int, s: int)
    requires
        0 <= h,
        0 <= m < 60,
        0 <= s < 60,
    ensures
        h == 0 && m == 0 ==> ago(3600 * h + 60 * m + s) == "just now"@,
        h == 0 && m > 0 ==> ago(3600 * h + 60 * m + s) == decimal(m as nat) + "m ago"@,
        h > 0 ==> ago(3600 * h + 60 * m + s) == decimal(h as nat) + "h ago"@,
{
    let t = 3600 * h + 60 * m + s;
    assert(t / 60 == 60 * h + m);
    assert((60 * h + m) / 60 == h);
}

/// A moment that is not past is now.
pub proof fn no_moment_is_in_the_future(at: u64, now: u64)
    ensures
        since(at, now) >= 0,
        at <= now ==> at + since(at, now) == now,
        at >= now ==> since(at, now) == 0,
{
}

/// Whether a row has a button for an action, with a tooltip.
pub open spec fn offers(parts: Seq<Part>, tooltip: Option<Seq<char>>, action: RowAction) -> bool {
    exists|i: int|
        0 <= i < parts.len() && ((#[trigger] parts[i]) matches Part::Button(_, _, t, a) && t
            == tooltip && a == action)
}

/// Whether a row has a text that ends with another.
pub open spec fn tells(parts: Seq<Part>, what: Seq<char>) -> bool {
    exists|i: int|
        0 <= i < parts.len() && ((#[trigger] parts[i]) matches Part::Muted(text, _) && ends(
            text,
            what,
        ))
}

proof fn lemma_ends(a: Seq<char>, b: Seq<char>)
    ensures
        ends(a + b, b),
{
    let s = a + b;
    assert(s.subrange(s.len() - b.len(), s.len() as int) =~= b);
}

/// A row is shown for every state but one without a configuration. It tells why a
/// sync is held and when it last ran; a failure is offered again, with its
/// reason, and a sign-in where one is missing.
pub proof fn calendar_rows_tell_and_offer(state: State, now: u64)
    ensures
        calendar_parts(state, now) is None <==> state is NoConfig,
        state is NeverConnected || state is Disconnected ==> offers(
            calendar_parts(state, now)->0,
            None,
            RowAction::ConnectWorkspace,
        ),
        state matches State::Failing(error) ==> offers(
            calendar_parts(state, now)->0,
            Some(error),
            RowAction::SyncCalendar,
        ),
        state matches State::Holding(reason) ==> tells(calendar_parts(state, now)->0, reason),
        state matches State::Synced(at) ==> tells(
            calendar_parts(state, now)->0,
            ago(since(at, now)),
        ),
{
    if let Some(parts) = calendar_parts(state, now) {
        match state {
            State::NeverConnected => {
                assert(parts[0] is Button);
            },
            State::Disconnected => {
                assert(parts[1] is Button);
            },
            State::Failing(error) => {
                assert(parts[1] is Button);
            },
            State::Holding(reason) => {
                lemma_ends("Calendar · "@, reason);
                assert(parts[0] is Muted);
            },
            State::Synced(at) => {
                lemma_ends("Calendar · synced "@, ago(since(at, now)));
                assert(parts[0] is Muted);
            },
            _ => {},
        }
    }
}

/// The same of the row for Gmail.
pub proof fn gmail_rows_tell_and_offer(state: State, legacy: bool, now: u64)
    ensures
        gmail_parts(state, legacy, now) is None <==> state is NoConfig,
        state is NeverConnected || state is Disconnected ==> offers(
            gmail_parts(state, legacy, now)->0,
            None,
            RowAction::ConnectWorkspace,
        ),
        state matches State::Failing(error) ==> offers(
            gmail_parts(state, legacy, now)->0,
            Some(error),
            RowAction::SyncGmail,
        ),
        state matches State::Holding(reason) ==> tells(gmail_parts(state, legacy, now)->0, reason),
        state matches State::Synced(at) ==> (!legacy ==> tells(
            gmail_parts(state, legacy, now)->0,
            ago(since(at, now)),
        )),
{
    if let Some(parts) = gmail_parts(state, legacy, now) {
        match state {
            State::NeverConnected => {
                assert(parts[0] is Button);
            },
            State::Disconnected => {
                assert(parts[1] is Button);
            },
            State::Failing(error) => {
                assert(parts[1] is Button);
            },
            State::Holding(reason) => {
                lemma_ends("Gmail · "@, reason);
                assert(parts[0] is Muted);
            },
            State::Synced(at) => {
                lemma_ends("Gmail · checked "@, ago(since(at, now)));
                assert(parts[0] is Muted);
            },
            _ => {},
        }
    }
}

/// The same of the row for the inbox, which also tells how many items wait, and
/// offers to sort them.
#[verifier::spinoff_prover]
#[verifier::rlimit(40)]
pub proof fn inbox_rows_tell_and_offer(state: State, depth: int, gmail_shown: bool)
    requires
        0 <= depth,
    ensures
        inbox_parts(state, depth, gmail_shown) is None <==> state is NoConfig || (state
            is NeverConnected && gmail_shown),
        (state is NeverConnected && !gmail_shown) || state is Disconnected ==> offers(
            inbox_parts(state, depth, gmail_shown)->0,
            None,
            RowAction::ConnectWorkspace,
        ),
        state matches State::Failing(error) ==> offers(
            inbox_parts(state, depth, gmail_shown)->0,
            Some(error),
            RowAction::SyncInbox,
        ),
        state matches State::Holding(reason) ==> tells(
            inbox_parts(state, depth, gmail_shown)->0,
            reason,
        ),
        state is Synced && depth == 0 ==> tells(inbox_parts(state, depth, gmail_shown)->0, "empty"@),
        state is Synced && depth > 0 ==> {
            let parts = inbox_parts(state, depth, gmail_shown)->0;
            &&& parts.len() == 1
            &&& parts[0] matches Part::Button(_, label, _, action) && action
                == RowAction::TriageInbox && has(label, decimal(depth as nat))
        },
{
    if let Some(parts) = inbox_parts(state, depth, gmail_shown) {
        match state {
            State::NeverConnected => {
                assert(parts[0] is Button);
            },
            State::Disconnected => {
                assert(parts[1] is Button);
            },
            State::Failing(error) => {
                assert(parts[1] is Button);
            },
            State::Holding(reason) => {
                lemma_ends("Inbox · "@, reason);
                assert(parts[0] is Muted);
            },
            State::Synced(_) => {
                lemma_ends("Inbox · "@, "empty"@);
                lemma_has_itself(decimal(depth as nat));
                lemma_has(
                    "Inbox · "@,
                    decimal(depth as nat),
                    " waiting — triage"@,
                    decimal(depth as nat),
                );
                if depth == 0 {
                    assert(parts[0] is Muted);
                }
            },
            _ => {},
        }
    }
}

/// A path lies in a folder where it is the folder or begins with it and a slash.
pub proof fn paths_lie_in_their_folder(path: Seq<char>, dir: Seq<char>, rest: Seq<char>)
    ensures
        is_within(dir, dir),
        is_within(dir + seq!['/'] + rest, dir),
        is_within(path, dir) && path != dir ==> path.len() > dir.len() && path.take(
            dir.len() as int,
        ) == dir && path[dir.len() as int] == '/',
{
    let front = dir + seq!['/'];
    let all = front + rest;
    assert(all.subrange(0, front.len() as int) =~= front);
    assert(dir + seq!['/'] + rest =~= all);
    if is_within(path, dir) && path != dir {
        assert(path.subrange(0, front.len() as int) == front);
        assert(path.subrange(0, front.len() as int)[dir.len() as int] == path[dir.len() as int]);
        assert(path.take(dir.len() as int) =~= dir) by {
            assert forall|i: int| 0 <= i < dir.len() implies path[i] == dir[i] by {
                assert(path.subrange(0, front.len() as int)[i] == front[i]);
            }
        }
    }
}

/// Items are gathered from every source that answers, in order; of two failures,
/// and of two holds, the first is told.
pub proof fn answers_are_gathered(g: Gathered, reply: Reply)
    ensures
        reply matches Reply::Items(items) ==> with_reply(g, reply).items == g.items + items,
        !(reply is Items) ==> with_reply(g, reply).items == g.items,
        reply matches Reply::Failed(error) ==> with_reply(g, reply).failed == Some(
            if g.failed is Some {
                g.failed->0
            } else {
                error
            },
        ),
        !(reply is Failed) ==> with_reply(g, reply).failed == g.failed,
        reply matches Reply::Holding(reason) ==> with_reply(g, reply).holding == Some(
            if g.holding is Some {
                g.holding->0
            } else {
                reason
            },
        ),
        !(reply is Holding) ==> with_reply(g, reply).holding == g.holding,
{
}

/// A failure is told before a hold, and both before what was captured.
pub proof fn failures_are_told_first(
    failed: Option<Seq<char>>,
    holding: Option<Seq<char>>,
    captured: usize,
)
    ensures
        failed matches Some(error) ==> poll_end(failed, holding, captured) == Ended::Failed(error),
        failed is None ==> (holding matches Some(reason) ==> poll_end(failed, holding, captured)
            == Ended::Held(reason)),
        failed is None && holding is None ==> poll_end(failed, holding, captured)
            == Ended::Synced(captured),
{
}

/// An item's note is written before the item is recorded, and each has its own
/// step or entry.
pub proof fn items_land_before_they_are_recorded(plan: Plan, at: Seq<char>)
    ensures
        ({
            let steps = inbox_landing(plan, at);
            &&& forall|i: int|
                0 <= i < plan.files.len() ==> (#[trigger] steps[i]) == Landing::CreateNote(
                    plan.files[i].rel_path,
                    plan.files[i].content,
                )
            &&& steps.len() == plan.files.len() + (if plan.records.len() > 0 {
                1int
            } else {
                0
            })
            &&& plan.records.len() > 0 ==> steps.last() == Landing::Record(
                item_records(plan.records, at),
            )
            &&& item_records(plan.records, at).len() == plan.records.len()
            &&& forall|i: int|
                0 <= i < plan.records.len() ==> (#[trigger] item_records(plan.records, at)[i])
                    == json_object(
                    seq![
                        ("digest"@, plan.records[i].digest),
                        ("source"@, plan.records[i].source),
                        ("id"@, plan.records[i].external_id),
                        ("title"@, plan.records[i].title),
                        ("at"@, at),
                    ],
                )
        }),
{
    let steps = inbox_landing(plan, at);
    assert forall|i: int| 0 <= i < plan.files.len() implies (#[trigger] steps[i])
        == Landing::CreateNote(plan.files[i].rel_path, plan.files[i].content) by {
        assert(steps[i] == note_steps(plan.files)[i]);
    }
}

/// A sync waits without calendars, and without a note to write to.
pub proof fn syncs_wait_for_what_they_need(calendars: int, note_open: bool, note_exists: bool)
    ensures
        held_before(calendars, note_open, note_exists) is None <==> calendars != 0 && (note_open
            || note_exists),
        calendars == 0 ==> held_before(calendars, note_open, note_exists) == Some(
            "no calendars selected"@,
        ),
        calendars != 0 && !note_open && !note_exists ==> held_before(
            calendars,
            note_open,
            note_exists,
        ) == Some("waiting for today's note"@),
{
}

/// A renamed line is logged unless it was, and no id is logged twice.
pub proof fn new_divergences_are_logged(diverged: Seq<Diverged>, logged: Seq<Seq<char>>, i: int)
    requires
        0 <= i < diverged.len(),
        !logged.contains(diverged[i].id),
        forall|j: int| 0 <= j < i ==> (#[trigger] diverged[j]).id != diverged[i].id,
    ensures
        fresh_divergences(diverged, logged).contains(diverged[i]),
    decreases diverged.len(),
{
    let above = diverged.drop_last();
    let fresh = fresh_divergences(above, logged);
    let all = fresh_divergences(diverged, logged);
    if i < above.len() {
        assert(above[i] == diverged[i]);
        assert forall|j: int| 0 <= j < i implies (#[trigger] above[j]).id != above[i].id by {
            assert(above[j] == diverged[j]);
        }
        new_divergences_are_logged(above, logged, i);
        let k = choose|k: int| 0 <= k < fresh.len() && fresh[k] == diverged[i];
        assert(all[k] == diverged[i]);
    } else {
        let ids = diverged_ids(above);
        if ids.contains(diverged[i].id) {
            let k = choose|k: int| 0 <= k < ids.len() && ids[k] == diverged[i].id;
            assert(ids[k] == above[k].id);
            assert(diverged[k].id == diverged[i].id);
        }
        assert(all[all.len() - 1] == diverged[i]);
    }
}

/// Entries are added at the end, each on a line of its own and in order.
pub proof fn entries_are_added_at_the_end(
    contents: Seq<char>,
    a: Seq<Seq<char>>,
    b: Seq<Seq<char>>,
    entry: Seq<char>,
)
    ensures
        with_entries(contents, a + b) == with_entries(with_entries(contents, a), b),
        with_entries(contents, seq![entry]) == contents + entry + seq!['\n'],
        with_entries(contents, Seq::empty()) == contents,
    decreases b.len(),
{
    let one = seq![entry];
    assert(one.drop_last() =~= Seq::<Seq<char>>::empty());
    assert(one.last() == entry);
    assert(with_entries(contents, one.drop_last()) == contents);
    assert(with_entries(contents, one) =~= contents + entry + seq!['\n']);
    if b.len() == 0 {
        assert(a + b =~= a);
    } else {
        entries_are_added_at_the_end(contents, a, b.drop_last(), entry);
        assert((a + b).drop_last() =~= a + b.drop_last());
        assert((a + b).last() == b.last());
    }
}

/// A calendar is found by its name or its id, letter case aside, and all are
/// found by an empty query.
pub proof fn calendars_are_found(entry: CalendarListEntry, query: Seq<char>)
    ensures
        matches_query(entry, query) <==> has(lowercase(entry.summary@), query) || has(
            lowercase(entry.id@),
            query,
        ) || query.len() == 0,
{
    lemma_has_found(lowercase(entry.summary@), query);
    lemma_has_found(lowercase(entry.id@), query);
}

/// The calendars that match are all that do, in their order.
#[verifier::spinoff_prover]
#[verifier::rlimit(40)]
pub proof fn all_matches_are_listed(entries: Seq<CalendarListEntry>, query: Seq<char>)
    ensures
        forall|i: int|
            #![trigger matching(entries, query).contains(i)]
            matching(entries, query).contains(i) == (0 <= i < entries.len() && matches_query(
                entries[i],
                query,
            )),
        forall|a: int, b: int|
            0 <= a < b < matching(entries, query).len() ==> (#[trigger] matching(
                entries,
                query,
            )[a]) < (#[trigger] matching(entries, query)[b]),
    decreases entries.len(),
{
    let all = matching(entries, query);
    if entries.len() == 0 {
        assert(all.len() == 0);
    } else {
        let rest = entries.drop_last();
        let n = rest.len() as int;
        let above = matching(rest, query);
        all_matches_are_listed(rest, query);
        assert(all == above || all == above.push(n));
        assert forall|i: int|
            #![trigger all.contains(i)]
            all.contains(i) == (0 <= i < entries.len() && matches_query(entries[i], query)) by {
            assert(above.contains(i) == (0 <= i < rest.len() && matches_query(rest[i], query)));
            if above.contains(i) {
                let k = choose|k: int| 0 <= k < above.len() && above[k] == i;
                assert(all[k] == i);
                assert(rest[i] == entries[i]);
            }
            if all.contains(i) && !above.contains(i) {
                let k = choose|k: int| 0 <= k < all.len() && all[k] == i;
                if k < above.len() {
                    assert(above[k] == i);
                }
            }
            if i == n && matches_query(entries[n], query) {
                assert(all[all.len() - 1] == n);
            }
            if 0 <= i < n {
                assert(rest[i] == entries[i]);
            }
        }
        assert forall|a: int, b: int| 0 <= a < b < all.len() implies (#[trigger] all[a]) < (
        #[trigger] all[b]) by {
            assert(all[a] == above[a]);
            assert(above.contains(above[a]));
            if b < above.len() {
                assert(all[b] == above[b]);
            }
        }
    }
}

/// The calendars that are chosen are those that were selected and are there.
#[verifier::spinoff_prover]
#[verifier::rlimit(40)]
pub proof fn selected_calendars_are_chosen(
    entries: Seq<CalendarListEntry>,
    selected: Seq<Seq<char>>,
)
    ensures
        forall|id: Seq<char>| #[trigger]
            chosen_ids(entries, selected).contains(id) == (selected.contains(id) && exists|i: int|
                0 <= i < entries.len() && (#[trigger] entries[i]).id@ == id),
    decreases entries.len(),
{
    let all = chosen_ids(entries, selected);
    if entries.len() == 0 {
        assert(all.len() == 0);
    } else {
        let rest = entries.drop_last();
        let n = rest.len() as int;
        let above = chosen_ids(rest, selected);
        selected_calendars_are_chosen(rest, selected);
        let last = entries[n].id@;
        assert(all == above || all == above.push(last));
        assert forall|id: Seq<char>| #[trigger]
            all.contains(id) == (selected.contains(id) && exists|i: int|
                0 <= i < entries.len() && (#[trigger] entries[i]).id@ == id) by {
            assert(above.contains(id) == (selected.contains(id) && exists|i: int|
                0 <= i < rest.len() && (#[trigger] rest[i]).id@ == id));
            if above.contains(id) {
                let k = choose|k: int| 0 <= k < above.len() && above[k] == id;
                assert(all[k] == id);
                let i = choose|i: int| 0 <= i < rest.len() && (#[trigger] rest[i]).id@ == id;
                assert(entries[i] == rest[i]);
            }
            if all.contains(id) && !above.contains(id) {
                let k = choose|k: int| 0 <= k < all.len() && all[k] == id;
                if k < above.len() {
                    assert(above[k] == id);
                }
                assert(entries[n].id@ == id);
            }
            if selected.contains(id) && exists|i: int|
                0 <= i < entries.len() && (#[trigger] entries[i]).id@ == id {
                let i = choose|i: int| 0 <= i < entries.len() && (#[trigger] entries[i]).id@ == id;
                if i < n {
                    assert(rest[i] == entries[i]);
                } else {
                    assert(all[all.len() - 1] == id);
                }
            }
        }
    }
}

/// A question is answered with the option that was clicked, else with the one
/// that is marked, else with the first; a text with what was typed, trimmed.
/// Nothing is said to a question that is no longer asked.
pub proof fn questions_are_answered_with_what_was_chosen(
    property: Seq<char>,
    options: Seq<(Seq<char>, Seq<char>)>,
    clicked: Option<usize>,
    highlighted: Option<usize>,
    text: Option<Seq<char>>,
    a: Asked,
)
    ensures
        said(a, false, clicked, highlighted, text) is Nothing,
        clicked matches Some(i) ==> (i < options.len() ==> said(
            Asked::Choice(property, options),
            true,
            clicked,
            highlighted,
            text,
        ) == Said::Accept(Some((property, options[i as int].0)))),
        clicked is None ==> (highlighted matches Some(i) ==> (i < options.len() ==> said(
            Asked::Choice(property, options),
            true,
            clicked,
            highlighted,
            text,
        ) == Said::Accept(Some((property, options[i as int].0))))),
        clicked is None && highlighted is None && options.len() > 0 ==> said(
            Asked::Choice(property, options),
            true,
            clicked,
            highlighted,
            text,
        ) == Said::Accept(Some((property, options[0].0))),
        text matches Some(t) ==> (trim(t).len() > 0 ==> said(
            Asked::Text(property),
            true,
            clicked,
            highlighted,
            text,
        ) == Said::Accept(Some((property, trim(t))))),
        text is None || trim(text->0).len() == 0 ==> said(
            Asked::Text(property),
            true,
            clicked,
            highlighted,
            text,
        ) is Nothing,
        said(Asked::Link(property), true, clicked, highlighted, text) == Said::OpenLink(property),
        said(Asked::Confirm, true, clicked, highlighted, text) == Said::Accept(None),
{
}

/// Steps go from option to option; going on and back ends where it began.
pub proof fn steps_go_option_by_option(i: usize, n: int)
    requires
        i < n,
        n <= usize::MAX,
    ensures
        i + 1 < n ==> stepped(Some(i), n, true) == Some(i + 1),
        i > 0 ==> stepped(Some(i), n, false) == Some(i - 1),
        i + 1 < n ==> stepped(Some((i + 1) as usize), n, false) == Some(i as int),
        stepped(Some((n - 1) as usize), n, true) == Some(n - 1),
        stepped(Some(0), n, false) == Some(0int),
{
}

/// Every option is listed by its title, and the chosen one is marked.
pub proof fn one_option_is_marked(options: Seq<(Seq<char>, Seq<char>)>, chosen: int)
    ensures
        marked(options, chosen).len() == options.len(),
        forall|i: int|
            0 <= i < options.len() ==> (#[trigger] marked(options, chosen)[i]).0 == options[i].1 && (
            marked(options, chosen)[i].1 <==> i == chosen),
{
}

/// A kind is found where it stands first.
pub proof fn the_first_of_a_kind_is_found(kinds: Seq<PermissionKind>, kind: PermissionKind)
    ensures
        match first_of(kinds, kind) {
            Some(at) => 0 <= at < kinds.len() && kinds[at] == kind && forall|j: int|
                0 <= j < at ==> (#[trigger] kinds[j]) != kind,
            None => forall|j: int| 0 <= j < kinds.len() ==> (#[trigger] kinds[j]) != kind,
        },
    decreases kinds.len(),
{
    if kinds.len() > 0 {
        let rest = kinds.drop_last();
        the_first_of_a_kind_is_found(rest, kind);
        assert forall|j: int| 0 <= j < rest.len() implies (#[trigger] kinds[j]) == rest[j] by {}
        if first_of(rest, kind) is None {
            assert forall|j: int| 0 <= j < rest.len() implies (#[trigger] kinds[j]) != kind by {
                assert(rest[j] != kind);
            }
        } else {
            let at = first_of(rest, kind)->0;
            assert forall|j: int| 0 <= j < at implies (#[trigger] kinds[j]) != kind by {
                assert(rest[j] != kind);
            }
        }
    }
}

/// Connecting writes the account's name, and asks for all four features.
pub proof fn connecting_names_the_account(
    email: Seq<char>,
    known: Seq<Seq<char>>,
    before: Map<Seq<char>, Node>,
)
    ensures
        ({
            let w = connect_writes(email, known);
            &&& w.len() == 4
            &&& w[0].file == "google.toml"@
            &&& w[1].file == "calendar.toml"@
            &&& w[2].file == "gmail.toml"@
            &&& w[3].file == "inbox.toml"@
            &&& w[0].changes.contains(
                Change { key: "account"@, value: Node::Text(email), only_if_absent: false },
            )
            &&& forall|i: int|
                0 <= i < 4 ==> (#[trigger] w[i]).changes.contains(
                    Change { key: "schema"@, value: Node::Number(1), only_if_absent: false },
                )
        }),
{
    let w = connect_writes(email, known);
    assert(w[0].changes[1] == (Change {
        key: "account"@,
        value: Node::Text(email),
        only_if_absent: false,
    }));
    assert forall|i: int| 0 <= i < 4 implies (#[trigger] w[i]).changes.contains(
        Change { key: "schema"@, value: Node::Number(1), only_if_absent: false },
    ) by {
        assert(w[i].changes[0] == (Change {
            key: "schema"@,
            value: Node::Number(1),
            only_if_absent: false,
        }));
    }
}

/// A link is opened, a form with one text is a choice where it has options, the
/// titled ones first, else a text; anything else is answered yes or no.
pub proof fn questions_are_asked_as_they_are(request: ElicitationRequest)
    ensures
        request.mode matches ElicitationMode::Url(url) ==> asked(request) == Asked::Link(url@),
        request.mode is Other ==> asked(request) is Confirm,
        request.mode matches ElicitationMode::Form(fields) ==> (fields@.len() != 1 ==> asked(request)
            is Confirm),
        request.mode matches ElicitationMode::Form(fields) ==> (fields@.len() == 1 ==> match fields@[0].1 {
            PropertySchema::Other => asked(request) is Confirm,
            PropertySchema::Text { one_of, enum_values } => if one_of is None && enum_values is None {
                asked(request) == Asked::Text(fields@[0].0@)
            } else {
                asked(request) matches Asked::Choice(property, options) && property
                    == fields@[0].0@ && (one_of matches Some(titled) ==> options.len()
                    == titled@.len() && forall|i: int|
                    0 <= i < options.len() ==> (#[trigger] options[i]).0 == titled@[i].0@
                        && options[i].1 == titled@[i].1@) && (one_of is None ==> options.len()
                    == enum_values->0@.len() && forall|i: int|
                    0 <= i < options.len() ==> (#[trigger] options[i]).0 == enum_values->0@[i]@
                        && options[i].1 == enum_values->0@[i]@)
            },
        }),
{
}

/// A renamed line is logged with its event's id and title, and as it stands.
pub proof fn log_entries_name_event_and_line(d: Diverged, at: Seq<char>)
    ensures
        log_fields(d, at).contains(("at"@, at)),
        log_fields(d, at).contains(("id"@, d.id)),
        log_fields(d, at).contains(("event_title"@, d.title)),
        log_fields(d, at).contains(("line"@, d.line)),
{
    let f = log_fields(d, at);
    assert(f[0] == ("at"@, at));
    assert(f[2] == ("id"@, d.id));
    assert(f[3] == ("event_title"@, d.title));
    assert(f[4] == ("line"@, d.line));
}

} // verus!
