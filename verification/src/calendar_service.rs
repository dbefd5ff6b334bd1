//! The calendar service's decisions: what a sync does to today's note, what is
//! logged, what connecting writes, and how the calendar picker works.

use vstd::prelude::*;
use crate::calendar::{
    CalendarConfig, CalendarEvent, Diverged, Divergence, EventFilters, Fetched, Reconciled,
};
use crate::format::{lowercase, lowered};
use crate::getting_started::pairs;
use crate::inbox::text_of;
use crate::json::{json_field, json_object, to_json_object};
use crate::lines::{lines, strings};
use crate::reconcile::{apply_line_edits, edited_note, outcome, reconcile};
use crate::sort::views;
use crate::sync::{
    after_apply, BufferStep, Ended, Settings, State, Status, SyncOutcome, SyncService, SyncState,
};
use crate::text::{append_str, find, from_chars, own, position, same_str, to_chars};
use crate::toml_file::{changed, text_list, Change, ConfigChange, ConfigValue, Node};
use crate::words::{holds, list_holds, without_text};

verus! {

/// Where diverged lines are logged, below the configuration folder.
pub const DIVERGENCE_LOG_PATH: &'static str = ".thock/state/calendar/log.jsonl";

/// What a calendar configuration says.
pub struct CalendarSettings {
    pub account: Option<Seq<char>>,
    pub calendars: Seq<Seq<char>>,
    pub section: Seq<char>,
    pub poll_interval: u64,
    pub filters: EventFilters,
    pub client_id: Option<Seq<char>>,
    pub client_secret: Option<Seq<char>>,
    pub planner_heading: Seq<char>,
}

impl View for CalendarConfig {
    type V = CalendarSettings;

    open spec fn view(&self) -> CalendarSettings {
        CalendarSettings {
            account: text_of(self.account),
            calendars: strings(self.calendars@),
            section: self.section@,
            poll_interval: self.poll_interval,
            filters: self.filters,
            client_id: text_of(self.google.client_id),
            client_secret: text_of(self.google.client_secret),
            planner_heading: self.planner_heading@,
        }
    }
}

/// Whether two optional strings are the same.
pub(crate) fn same_opt(a: &Option<String>, b: &Option<String>) -> (yes: bool)
    ensures
        yes == (text_of(*a) == text_of(*b)),
{
    match (a, b) {
        (Some(x), Some(y)) => same_str(x.as_str(), y.as_str()),
        (None, None) => true,
        _ => false,
    }
}

/// Whether two lists of strings are the same.
pub(crate) fn same_list(a: &Vec<String>, b: &Vec<String>) -> (yes: bool)
    ensures
        yes == (strings(a@) == strings(b@)),
{
    if a.len() != b.len() {
        assert(strings(a@).len() != strings(b@).len());
        return false;
    }
    let mut i: usize = 0;
    while i < a.len()
        invariant
            i <= a@.len(),
            a@.len() == b@.len(),
            forall|j: int| 0 <= j < i ==> #[trigger] a@[j]@ == b@[j]@,
        decreases a@.len() - i,
    {
        if !same_str(a[i].as_str(), b[i].as_str()) {
            assert(strings(a@)[i as int] != strings(b@)[i as int]);
            return false;
        }
        i = i + 1;
    }
    assert(strings(a@) =~= strings(b@));
    true
}

impl Settings for CalendarConfig {
    fn same(&self, other: &Self) -> (yes: bool) {
        same_opt(&self.account, &other.account) && same_list(&self.calendars, &other.calendars)
            && same_str(self.section.as_str(), other.section.as_str()) && self.poll_interval
            == other.poll_interval && self.filters == other.filters && same_opt(
            &self.google.client_id,
            &other.google.client_id,
        ) && same_opt(&self.google.client_secret, &other.google.client_secret) && same_str(
            self.planner_heading.as_str(),
            other.planner_heading.as_str(),
        )
    }
}

/// What a sync does before it asks for events.
pub open spec fn held_before(
    calendars: int,
    note_open: bool,
    note_exists: bool,
) -> Option<Seq<char>> {
    if calendars == 0 {
        Some("no calendars selected"@)
    } else if !note_open && !note_exists {
        Some("waiting for today's note"@)
    } else {
        None
    }
}

/// Why a sync ends before it asks for events, if it does. It needs a service
/// that is connected and configured; sync never creates the daily note.
pub fn before_fetch(
    ready: bool,
    calendars: usize,
    note_open: bool,
    note_exists: bool,
) -> (ended: Option<SyncOutcome>)
    ensures
        match ended {
            Some(o) => o@ == (if !ready {
                Ended::Aborted
            } else {
                Ended::Held(held_before(calendars as int, note_open, note_exists)->0)
            }) && (!ready || held_before(calendars as int, note_open, note_exists) is Some),
            None => ready && held_before(calendars as int, note_open, note_exists) is None,
        },
{
    if !ready {
        return Some(SyncOutcome::Aborted);
    }
    if calendars == 0 {
        return Some(SyncOutcome::Held(own("no calendars selected")));
    }
    if !note_open && !note_exists {
        return Some(SyncOutcome::Held(own("waiting for today's note")));
    }
    None
}

/// What a sync does to a note.
pub enum NoteSync {
    /// It holds, for the reason given.
    Held(String),
    /// The note's new text, where it changes, and the lines that diverged.
    Synced { text: Option<String>, diverged: Vec<Divergence> },
}

/// Brings a note's calendar section up to date with the day's events.
pub fn sync_note(text: &str, events: &[CalendarEvent], config: &CalendarConfig) -> (done: NoteSync)
    ensures
        ({
            let found = outcome(
                lines(text@),
                views(events@),
                config.section@,
                config.planner_heading@,
            );
            match done {
                NoteSync::Held(reason) => found is None && reason@
                    == "no planner heading in today's note"@,
                NoteSync::Synced { text: new_text, diverged } => {
                    &&& found is Some
                    &&& views(diverged@) == found->0.diverged
                    &&& text_of(new_text) == (if found->0.edits.len() == 0 {
                        None
                    } else {
                        Some(edited_note(text@, found->0.edits))
                    })
                },
            }
        }),
{
    match reconcile(text, events, config) {
        Reconciled::NoPlannerSection => NoteSync::Held(own("no planner heading in today's note")),
        Reconciled::Edits { edits, diverged } => {
            let new_text: Option<String> = if edits.len() == 0 {
                None
            } else {
                Some(apply_line_edits(text, edits.as_slice()))
            };
            NoteSync::Synced { text: new_text, diverged }
        },
    }
}

/// The ids of divergences.
pub open spec fn diverged_ids(d: Seq<Diverged>) -> Seq<Seq<char>> {
    d.map_values(|x: Diverged| x.id)
}

/// The divergences that were not logged before, each id once.
pub open spec fn fresh_divergences(diverged: Seq<Diverged>, logged: Seq<Seq<char>>) -> Seq<Diverged>
    decreases diverged.len(),
{
    if diverged.len() == 0 {
        Seq::empty()
    } else {
        let above = diverged.drop_last();
        let fresh = fresh_divergences(above, logged);
        if logged.contains(diverged.last().id) || diverged_ids(above).contains(diverged.last().id) {
            fresh
        } else {
            fresh.push(diverged.last())
        }
    }
}

/// Picks the divergences to log, and remembers them: a frozen line is recorded
/// once and not on every poll.
pub fn take_fresh(diverged: Vec<Divergence>, logged: &mut Vec<String>) -> (fresh: Vec<Divergence>)
    ensures
        views(fresh@) == fresh_divergences(views(diverged@), strings(old(logged)@)),
        forall|id: Seq<char>| #[trigger]
            holds(final(logged)@, id) == (holds(old(logged)@, id) || diverged_ids(
                views(diverged@),
            ).contains(id)),
{
    let ghost all = views(diverged@);
    let ghost before = strings(logged@);
    let mut fresh: Vec<Divergence> = Vec::new();
    let mut i: usize = 0;
    assert(all.take(0) =~= Seq::<Diverged>::empty());
    assert(views(fresh@) =~= Seq::<Diverged>::empty());
    while i < diverged.len()
        invariant
            i <= diverged@.len(),
            all == views(diverged@),
            before == strings(old(logged)@),
            views(fresh@) == fresh_divergences(all.take(i as int), before),
            forall|id: Seq<char>| #[trigger]
                holds(logged@, id) == (before.contains(id) || diverged_ids(
                    all.take(i as int),
                ).contains(id)),
        decreases diverged@.len() - i,
    {
        let d = &diverged[i];
        let ghost above = all.take(i as int);
        let ghost logged0 = logged@;
        proof {
            assert(all.take(i + 1).drop_last() =~= above);
            assert(all.take(i + 1).last() == d@);
            assert(diverged_ids(all.take(i + 1)) =~= diverged_ids(above).push(d.id@));
        }
        if !list_holds(logged.as_slice(), d.id.as_str()) {
            logged.push(d.id.clone());
            assert(strings(logged@) =~= strings(logged0).push(d.id@));
            let ghost fresh0 = fresh@;
            let copy = Divergence {
                id: d.id.clone(),
                line: d.line.clone(),
                event_title: d.event_title.clone(),
            };
            fresh.push(copy);
            assert(views(fresh@) =~= views(fresh0).push(d@));
            assert forall|x: Seq<char>| #[trigger] holds(logged@, x) == (before.contains(x)
                || diverged_ids(all.take(i + 1)).contains(x)) by {
                crate::words::lemma_push_contains(strings(logged0), d.id@, x);
                crate::words::lemma_push_contains(diverged_ids(above), d.id@, x);
                assert(holds(logged0, x) == (before.contains(x) || diverged_ids(above).contains(x)));
            }
        } else {
            assert(holds(logged0, d.id@));
            assert forall|x: Seq<char>| #[trigger] holds(logged@, x) == (before.contains(x)
                || diverged_ids(all.take(i + 1)).contains(x)) by {
                crate::words::lemma_push_contains(diverged_ids(above), d.id@, x);
                assert(holds(logged0, x) == (before.contains(x) || diverged_ids(above).contains(x)));
            }
        }
        i = i + 1;
    }
    assert(all.take(all.len() as int) =~= all);
    fresh
}

/// A divergence that was logged is never logged again.
pub proof fn divergences_are_logged_once(diverged: Seq<Diverged>, logged: Seq<Seq<char>>)
    requires
        forall|i: int| 0 <= i < diverged.len() ==> logged.contains(#[trigger] diverged[i].id),
    ensures
        fresh_divergences(diverged, logged).len() == 0,
    decreases diverged.len(),
{
    if diverged.len() > 0 {
        let above = diverged.drop_last();
        assert forall|i: int| 0 <= i < above.len() implies logged.contains(
            #[trigger] above[i].id,
        ) by {
            assert(above[i] == diverged[i]);
        }
        divergences_are_logged_once(above, logged);
        assert(logged.contains(diverged[diverged.len() - 1].id));
    }
}

/// The fields of a log entry.
pub open spec fn log_fields(d: Diverged, at: Seq<char>) -> Seq<(Seq<char>, Seq<char>)> {
    seq![
        ("at"@, at),
        ("reason"@, "title-diverged"@),
        ("id"@, d.id),
        ("event_title"@, d.title),
        ("line"@, d.line),
    ]
}

/// The log entry for a diverged line, so that the reason why a line froze can
/// be looked up.
pub fn divergence_entry(divergence: &Divergence, at: &str) -> (entry: String)
    ensures
        entry@ == json_object(log_fields(divergence@, at@)),
        !entry@.contains('\n'),
        json_field(entry@, "id"@) == Some(divergence.id@),
        json_field(entry@, "line"@) == Some(divergence.line@),
{
    let mut fields: Vec<(String, String)> = Vec::new();
    fields.push((own("at"), own(at)));
    fields.push((own("reason"), own("title-diverged")));
    fields.push((own("id"), divergence.id.clone()));
    fields.push((own("event_title"), divergence.event_title.clone()));
    fields.push((own("line"), divergence.line.clone()));
    assert(pairs(fields@) =~= log_fields(divergence@, at@));
    proof {
        reveal_strlit("id");
        reveal_strlit("event_title");
        reveal_strlit("line");
        assert(fields@[2].0@ == "id"@ && fields@[3].0@ == "event_title"@ && fields@[4].0@
            == "line"@);
        assert("id"@.len() == 2 && "event_title"@.len() == 11 && "line"@.len() == 4);
    }
    let entry = to_json_object(fields.as_slice());
    assert(json_field(entry@, fields@[2].0@) == Some(fields@[2].1@));
    assert(json_field(entry@, fields@[4].0@) == Some(fields@[4].1@));
    entry
}

/// A log with entries added, each on a line of its own.
pub open spec fn with_entries(contents: Seq<char>, entries: Seq<Seq<char>>) -> Seq<char>
    decreases entries.len(),
{
    if entries.len() == 0 {
        contents
    } else {
        with_entries(contents, entries.drop_last()) + entries.last() + seq!['\n']
    }
}

/// A log with entries added.
pub fn append_entries(contents: &str, entries: &[String]) -> (text: String)
    ensures
        text@ == with_entries(contents@, strings(entries@)),
{
    let ghost all = strings(entries@);
    let mut out: Vec<char> = to_chars(contents);
    let mut i: usize = 0;
    assert(all.take(0) =~= Seq::<Seq<char>>::empty());
    while i < entries.len()
        invariant
            i <= entries@.len(),
            all == strings(entries@),
            out@ == with_entries(contents@, all.take(i as int)),
        decreases entries@.len() - i,
    {
        let ghost before = out@;
        proof {
            assert(all.take(i + 1).drop_last() =~= all.take(i as int));
            assert(all.take(i + 1).last() == entries@[i as int]@);
        }
        append_str(&mut out, entries[i].as_str());
        out.push('\n');
        assert(out@ =~= before + entries@[i as int]@ + seq!['\n']);
        i = i + 1;
    }
    assert(all.take(all.len() as int) =~= all);
    from_chars(out.as_slice())
}

impl SyncService<CalendarConfig> {
    /// The connect flow starts: only in a vault. The result is whether it does.
    pub fn start_connect(&mut self) -> (started: bool)
        ensures
            started == old(self)@.has_vault,
            final(self)@ == (if old(self)@.has_vault {
                Status { state: State::Connecting, ..old(self)@ }
            } else {
                old(self)@
            }),
    {
        if self.has_vault {
            self.state = SyncState::Connecting;
            return true;
        }
        false
    }

    /// The connect flow failed.
    pub fn connect_failed(&mut self, error: String)
        ensures
            final(self)@ == (Status { state: State::Failing(error@), ..old(self)@ }),
    {
        self.state = SyncState::Failing { error };
    }

    /// Listing the calendars to choose from failed.
    pub fn choose_failed(&mut self, auth_revoked: bool, error: String)
        ensures
            final(self)@ == (Status {
                state: if auth_revoked {
                    State::Disconnected
                } else {
                    State::Failing(error@)
                },
                ..old(self)@
            }),
    {
        self.state = if auth_revoked {
            SyncState::Disconnected
        } else {
            SyncState::Failing { error }
        };
    }
}

/// A configuration file, and the changes to make in it.
pub struct FileChanges {
    pub file: String,
    pub changes: Vec<ConfigChange>,
}

/// What changes to a file say.
pub struct Changes {
    pub file: Seq<char>,
    pub changes: Seq<Change>,
}

impl View for FileChanges {
    type V = Changes;

    open spec fn view(&self) -> Changes {
        Changes { file: self.file@, changes: views(self.changes@) }
    }
}

/// The change that marks a file's format.
pub open spec fn schema_change() -> Change {
    Change { key: "schema"@, value: Node::Number(1), only_if_absent: false }
}

/// What connecting writes: the account into the connection's file and nowhere
/// else, the calendars chosen before or else the account's own, where the file
/// names none, and the files that arm mail and inbox capture.
pub open spec fn connect_writes(email: Seq<char>, known: Seq<Seq<char>>) -> Seq<Changes> {
    seq![
        Changes {
            file: "google.toml"@,
            changes: seq![
                schema_change(),
                Change { key: "account"@, value: Node::Text(email), only_if_absent: false },
            ],
        },
        Changes {
            file: "calendar.toml"@,
            changes: seq![
                schema_change(),
                Change {
                    key: "calendars"@,
                    value: text_list(
                        if known.len() == 0 {
                            seq![email]
                        } else {
                            known
                        },
                    ),
                    only_if_absent: true,
                },
            ],
        },
        Changes { file: "gmail.toml"@, changes: seq![schema_change()] },
        Changes { file: "inbox.toml"@, changes: seq![schema_change()] },
    ]
}

fn schema() -> (change: ConfigChange)
    ensures
        change@ == schema_change(),
{
    ConfigChange { key: own("schema"), value: ConfigValue::Number(1), only_if_absent: false }
}

fn file_changes(file: &str, more: Option<ConfigChange>) -> (out: FileChanges)
    ensures
        out@ == (Changes {
            file: file@,
            changes: match more {
                Some(c) => seq![schema_change(), c@],
                None => seq![schema_change()],
            },
        }),
{
    let mut changes: Vec<ConfigChange> = Vec::new();
    changes.push(schema());
    if let Some(c) = more {
        changes.push(c);
    }
    let out = FileChanges { file: own(file), changes };
    assert(out@.changes =~= (match more {
        Some(c) => seq![schema_change(), c@],
        None => seq![schema_change()],
    }));
    out
}

/// What connecting writes into the configuration folder, in order.
pub fn connect_changes(email: &str, existing_calendars: Vec<String>) -> (files: Vec<FileChanges>)
    ensures
        views(files@) == connect_writes(email@, strings(existing_calendars@)),
{
    let ghost known = strings(existing_calendars@);
    let mut calendars = existing_calendars;
    if calendars.len() == 0 {
        calendars.push(own(email));
        assert(strings(calendars@) =~= seq![email@]);
    }
    let mut files: Vec<FileChanges> = Vec::new();
    files.push(
        file_changes(
            "google.toml",
            Some(
                ConfigChange {
                    key: own("account"),
                    value: ConfigValue::Text(own(email)),
                    only_if_absent: false,
                },
            ),
        ),
    );
    files.push(
        file_changes(
            "calendar.toml",
            Some(
                ConfigChange {
                    key: own("calendars"),
                    value: ConfigValue::Texts(calendars),
                    only_if_absent: true,
                },
            ),
        ),
    );
    files.push(file_changes("gmail.toml", None));
    files.push(file_changes("inbox.toml", None));
    assert(views(files@) =~= connect_writes(email@, known));
    files
}

/// Connecting never replaces calendars that were chosen before, and keeps every
/// field but its own.
pub proof fn connecting_keeps_the_calendars(
    email: Seq<char>,
    known: Seq<Seq<char>>,
    before: Map<Seq<char>, Node>,
)
    ensures
        ({
            let after = changed(before, connect_writes(email, known)[1].changes);
            &&& after.contains_key("calendars"@)
            &&& after["calendars"@] == (if before.contains_key("calendars"@) {
                before["calendars"@]
            } else {
                text_list(
                    if known.len() == 0 {
                        seq![email]
                    } else {
                        known
                    },
                )
            })
            &&& forall|k: Seq<char>|
                k != "schema"@ && k != "calendars"@ ==> (#[trigger] after.contains_key(k)
                    == before.contains_key(k)) && (before.contains_key(k) ==> after[k]
                    == before[k])
        }),
{
    reveal_strlit("schema");
    reveal_strlit("calendars");
    let changes = connect_writes(email, known)[1].changes;
    assert(changes.drop_last() =~= seq![schema_change()]);
    assert(changes.drop_last().drop_last() =~= Seq::<Change>::empty());
    assert("schema"@.len() != "calendars"@.len());
    assert(changed(before, Seq::<Change>::empty()) == before);
    assert(changed(before, changes.drop_last()) == before.insert("schema"@, Node::Number(1)));
}

/// A calendar of the account.
#[derive(Debug, Clone, PartialEq)]
pub struct CalendarListEntry {
    pub id: String,
    pub summary: String,
    pub primary: bool,
}

/// The calendar picker: every calendar of the account; enter toggles one, and
/// closing saves the selection.
pub struct CalendarPicker {
    pub entries: Vec<CalendarListEntry>,
    /// Positions in `entries`.
    pub matches: Vec<usize>,
    /// The ids chosen.
    pub selected: Vec<String>,
    pub selected_index: usize,
}

/// Whether a calendar matches a query in small letters.
pub open spec fn matches_query(entry: CalendarListEntry, query: Seq<char>) -> bool {
    query.len() == 0 || find(lowercase(entry.summary@), query) is Some || find(
        lowercase(entry.id@),
        query,
    ) is Some
}

/// The positions of the first calendars that match.
pub open spec fn matching(entries: Seq<CalendarListEntry>, query: Seq<char>) -> Seq<int>
    decreases entries.len(),
{
    if entries.len() == 0 {
        Seq::empty()
    } else {
        let above = matching(entries.drop_last(), query);
        if matches_query(entries.last(), query) {
            above.push(entries.len() - 1)
        } else {
            above
        }
    }
}

/// Positions as integers.
pub open spec fn positions(v: Seq<usize>) -> Seq<int> {
    v.map_values(|i: usize| i as int)
}

impl CalendarPicker {
    /// Whether the matches are positions of calendars.
    pub open spec fn wf(&self) -> bool {
        forall|i: int| 0 <= i < self.matches@.len() ==> (#[trigger] self.matches@[i])
            < self.entries@.len()
    }

    /// A picker for calendars, with those chosen before.
    pub fn new(entries: Vec<CalendarListEntry>, selected: Vec<String>) -> (picker: Self)
        ensures
            picker.wf(),
            picker.entries == entries,
            picker.selected == selected,
            picker.selected_index == 0,
            positions(picker.matches@) == Seq::new(entries@.len(), |i: int| i),
    {
        let mut all: Vec<usize> = Vec::new();
        let mut i: usize = 0;
        while i < entries.len()
            invariant
                i <= entries@.len(),
                all@.len() == i,
                forall|j: int| 0 <= j < i ==> #[trigger] all@[j] == j,
            decreases entries@.len() - i,
        {
            all.push(i);
            i = i + 1;
        }
        assert(positions(all@) =~= Seq::new(entries@.len(), |i: int| i));
        CalendarPicker { entries, matches: all, selected, selected_index: 0 }
    }

    /// Narrows the list to the calendars that match a query.
    pub fn update_matches(&mut self, query: &str)
        ensures
            final(self).wf(),
            final(self).entries == old(self).entries,
            final(self).selected == old(self).selected,
            positions(final(self).matches@) == matching(old(self).entries@, lowercase(query@)),
            final(self).selected_index == (if final(self).matches@.len() == 0 {
                0
            } else if old(self).selected_index < final(self).matches@.len() {
                old(self).selected_index as int
            } else {
                final(self).matches@.len() - 1
            }),
    {
        let wanted = lowered(to_chars(query).as_slice());
        let ghost all = self.entries@;
        let mut found: Vec<usize> = Vec::new();
        let mut i: usize = 0;
        assert(all.take(0) =~= Seq::<CalendarListEntry>::empty());
        assert(positions(found@) =~= Seq::<int>::empty());
        while i < self.entries.len()
            invariant
                i <= self.entries@.len(),
                all == self.entries@,
                *self == *old(self),
                wanted@ == lowercase(query@),
                positions(found@) == matching(all.take(i as int), wanted@),
                forall|j: int| 0 <= j < found@.len() ==> (#[trigger] found@[j]) < i,
            decreases self.entries@.len() - i,
        {
            let ghost before = found@;
            let entry = &self.entries[i];
            proof {
                assert(all.take(i + 1).drop_last() =~= all.take(i as int));
                assert(all.take(i + 1).last() == *entry);
            }
            let hit: bool = wanted.len() == 0 || position(
                lowered(to_chars(entry.summary.as_str()).as_slice()).as_slice(),
                wanted.as_slice(),
            ).is_some() || position(
                lowered(to_chars(entry.id.as_str()).as_slice()).as_slice(),
                wanted.as_slice(),
            ).is_some();
            if hit {
                found.push(i);
                assert(positions(found@) =~= positions(before).push(i as int));
            }
            i = i + 1;
        }
        assert(all.take(all.len() as int) =~= all);
        let n: usize = found.len();
        self.matches = found;
        if n == 0 {
            self.selected_index = 0;
        } else if self.selected_index >= n {
            self.selected_index = n - 1;
        }
    }

    /// Toggles the calendar under the cursor.
    pub fn confirm(&mut self)
        requires
            old(self).wf(),
        ensures
            final(self).wf(),
            final(self).entries == old(self).entries,
            final(self).matches == old(self).matches,
            final(self).selected_index == old(self).selected_index,
            old(self).selected_index >= old(self).matches@.len() ==> final(self).selected
                == old(self).selected,
            old(self).selected_index < old(self).matches@.len() ==> ({
                let id =
                    old(self).entries@[old(self).matches@[old(self).selected_index as int] as int].id@;
                forall|x: Seq<char>| #[trigger]
                    holds(final(self).selected@, x) == (if x == id {
                        !holds(old(self).selected@, id)
                    } else {
                        holds(old(self).selected@, x)
                    })
            }),
    {
        if self.selected_index >= self.matches.len() {
            return;
        }
        let at: usize = self.matches[self.selected_index];
        let id = self.entries[at].id.clone();
        let ghost before = self.selected@;
        if list_holds(self.selected.as_slice(), id.as_str()) {
            let kept = without_text(&self.selected, id.as_str());
            self.selected = kept;
        } else {
            self.selected.push(id);
            assert(strings(self.selected@) =~= strings(before).push(id@));
            assert forall|x: Seq<char>| #[trigger] holds(self.selected@, x) == (if x == id@ {
                !holds(before, id@)
            } else {
                holds(before, x)
            }) by {
                crate::words::lemma_push_contains(strings(before), id@, x);
            }
        }
    }

    /// The calendars to save: those chosen, in the account's order.
    pub fn chosen(&self) -> (ids: Vec<String>)
        ensures
            strings(ids@) == chosen_ids(self.entries@, strings(self.selected@)),
    {
        let ghost all = self.entries@;
        let mut ids: Vec<String> = Vec::new();
        let mut i: usize = 0;
        assert(all.take(0) =~= Seq::<CalendarListEntry>::empty());
        assert(strings(ids@) =~= Seq::<Seq<char>>::empty());
        while i < self.entries.len()
            invariant
                i <= self.entries@.len(),
                all == self.entries@,
                strings(ids@) == chosen_ids(all.take(i as int), strings(self.selected@)),
            decreases self.entries@.len() - i,
        {
            let ghost before = ids@;
            proof {
                assert(all.take(i + 1).drop_last() =~= all.take(i as int));
                assert(all.take(i + 1).last() == all[i as int]);
            }
            if list_holds(self.selected.as_slice(), self.entries[i].id.as_str()) {
                ids.push(self.entries[i].id.clone());
                assert(strings(ids@) =~= strings(before).push(all[i as int].id@));
            }
            i = i + 1;
        }
        assert(all.take(all.len() as int) =~= all);
        ids
    }
}

/// The ids of the calendars chosen, in the account's order.
pub open spec fn chosen_ids(entries: Seq<CalendarListEntry>, selected: Seq<Seq<char>>) -> Seq<
    Seq<char>,
>
    decreases entries.len(),
{
    if entries.len() == 0 {
        Seq::empty()
    } else {
        let above = chosen_ids(entries.drop_last(), selected);
        if selected.contains(entries.last().id@) {
            above.push(entries.last().id@)
        } else {
            above
        }
    }
}

/// The name that the picker shows for a calendar: its summary, else its id.
pub fn entry_name(entry: &CalendarListEntry) -> (name: String)
    ensures
        name@ == (if entry.summary@.len() == 0 {
            entry.id@
        } else {
            entry.summary@
        }),
{
    if to_chars(entry.summary.as_str()).len() == 0 {
        entry.id.clone()
    } else {
        entry.summary.clone()
    }
}

/// What closing the picker writes.
pub fn picker_changes(calendars: Vec<String>) -> (files: FileChanges)
    ensures
        files@ == (Changes {
            file: "calendar.toml"@,
            changes: seq![
                Change {
                    key: "calendars"@,
                    value: text_list(strings(calendars@)),
                    only_if_absent: false,
                },
            ],
        }),
{
    let mut changes: Vec<ConfigChange> = Vec::new();
    changes.push(
        ConfigChange {
            key: own("calendars"),
            value: ConfigValue::Texts(calendars),
            only_if_absent: false,
        },
    );
    let files = FileChanges { file: own("calendar.toml"), changes };
    assert(files@.changes =~= seq![
        Change {
            key: "calendars"@,
            value: text_list(strings(calendars@)),
            only_if_absent: false,
        },
    ]);
    files
}

/// How asking for a day's events went.
pub enum DayAnswer {
    Fetched(Fetched),
    AuthRevoked,
    Failed(String),
}

/// The events to reconcile, or how the sync ends without any: a calendar that
/// did not change leaves nothing to do.
pub fn after_fetch(answer: DayAnswer) -> (events: Result<Vec<CalendarEvent>, SyncOutcome>)
    ensures
        match answer {
            DayAnswer::Fetched(Fetched::Events(list)) => events == Ok::<
                Vec<CalendarEvent>,
                SyncOutcome,
            >(list),
            DayAnswer::Fetched(Fetched::Unchanged) => events matches Err(e) && e@
                == Ended::Synced(0),
            DayAnswer::AuthRevoked => events matches Err(e) && e@ == Ended::AuthRevoked,
            DayAnswer::Failed(error) => events matches Err(e) && e@ == Ended::Failed(error@),
        },
{
    match answer {
        DayAnswer::Fetched(Fetched::Events(list)) => Ok(list),
        DayAnswer::Fetched(Fetched::Unchanged) => Err(SyncOutcome::Synced { captured: 0 }),
        DayAnswer::AuthRevoked => Err(SyncOutcome::AuthRevoked),
        DayAnswer::Failed(error) => Err(SyncOutcome::Failed(error)),
    }
}

/// What the last try to edit an open note comes to: the sync ends, or it goes
/// on with a fresh try.
pub fn buffer_outcome(tries: usize, applied: bool) -> (ended: Option<SyncOutcome>)
    ensures
        match ended {
            None => !applied && tries < 3,
            Some(o) => o@ == (if applied {
                Ended::Synced(0)
            } else {
                Ended::Failed("the buffer kept changing while applying calendar edits"@)
            }) && (applied || tries >= 3),
        },
{
    match after_apply(tries, applied) {
        BufferStep::Done => Some(SyncOutcome::Synced { captured: 0 }),
        BufferStep::GiveUp => Some(
            SyncOutcome::Failed(own("the buffer kept changing while applying calendar edits")),
        ),
        _ => None,
    }
}

/// A row of the picker.
#[derive(Debug, Clone, PartialEq)]
pub struct PickerRow {
    pub name: String,
    /// Whether the calendar is chosen.
    pub chosen: bool,
    /// Whether it is the account's own.
    pub primary: bool,
}

impl CalendarPicker {
    /// What a row of the picker shows.
    pub fn row_at(&self, index: usize) -> (row: Option<PickerRow>)
        ensures
            match row {
                Some(r) => {
                    &&& index < self.matches@.len()
                    &&& self.matches@[index as int] < self.entries@.len()
                    &&& ({
                        let entry = self.entries@[self.matches@[index as int] as int];
                        &&& r.name@ == (if entry.summary@.len() == 0 {
                            entry.id@
                        } else {
                            entry.summary@
                        })
                        &&& r.chosen == holds(self.selected@, entry.id@)
                        &&& r.primary == entry.primary
                    })
                },
                None => index >= self.matches@.len() || self.matches@[index as int]
                    >= self.entries@.len(),
            },
    {
        if index >= self.matches.len() || self.matches[index] >= self.entries.len() {
            return None;
        }
        let entry = &self.entries[self.matches[index]];
        Some(
            PickerRow {
                name: entry_name(entry),
                chosen: list_holds(self.selected.as_slice(), entry.id.as_str()),
                primary: entry.primary,
            },
        )
    }
}

} // verus!
