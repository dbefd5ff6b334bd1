//! The status rows that the panels show for the sync services.

use vstd::prelude::*;
use crate::format::{append_decimal, decimal};
use crate::inbox::text_of;
use crate::sort::views;
use crate::sync::{State, SyncState};
use crate::text::{append_str, from_chars, own, to_chars};

verus! {

/// What a button of a row does.
#[derive(Debug, Clone, Copy, PartialEq, Eq, Structural)]
pub enum RowAction {
    ConnectWorkspace,
    SyncCalendar,
    SyncGmail,
    SyncInbox,
    TriageInbox,
}

/// A part of a row.
#[derive(Debug, Clone, PartialEq)]
pub enum RowPart {
    Muted { text: String, tooltip: Option<String> },
    Button { id: String, label: String, tooltip: Option<String>, action: RowAction },
}

/// What a part shows.
pub enum Part {
    Muted(Seq<char>, Option<Seq<char>>),
    Button(Seq<char>, Seq<char>, Option<Seq<char>>, RowAction),
}

impl View for RowPart {
    type V = Part;

    open spec fn view(&self) -> Part {
        match *self {
            RowPart::Muted { text, tooltip } => Part::Muted(text@, text_of(tooltip)),
            RowPart::Button { id, label, tooltip, action } => Part::Button(
                id@,
                label@,
                text_of(tooltip),
                action,
            ),
        }
    }
}

/// How long ago something was.
pub open spec fn ago(seconds: int) -> Seq<char> {
    let minutes = seconds / 60;
    if minutes == 0 {
        "just now"@
    } else if minutes < 60 {
        decimal(minutes as nat) + "m ago"@
    } else {
        decimal((minutes / 60) as nat) + "h ago"@
    }
}

/// How long ago something was: in whole minutes for an hour, then in whole
/// hours.
pub fn format_ago(elapsed_seconds: u64) -> (text: String)
    ensures
        text@ == ago(elapsed_seconds as int),
{
    let minutes: u64 = elapsed_seconds / 60;
    if minutes == 0 {
        return own("just now");
    }
    let mut out: Vec<char> = Vec::new();
    if minutes < 60 {
        append_decimal(&mut out, minutes);
        append_str(&mut out, "m ago");
        assert(out@ =~= decimal(minutes as nat) + "m ago"@);
    } else {
        append_decimal(&mut out, minutes / 60);
        append_str(&mut out, "h ago");
        assert(out@ =~= decimal((minutes / 60) as nat) + "h ago"@);
    }
    from_chars(out.as_slice())
}

/// The time from one reading of a clock to a later one.
pub open spec fn since(at: u64, now: u64) -> int {
    if now > at {
        now - at
    } else {
        0
    }
}

fn seconds_since(at: u64, now: u64) -> (n: u64)
    ensures
        n == since(at, now),
{
    if now > at {
        now - at
    } else {
        0
    }
}

fn muted(before: &str, after: &str) -> (part: RowPart)
    ensures
        part@ == Part::Muted(before@ + after@, None),
{
    let mut out: Vec<char> = to_chars(before);
    append_str(&mut out, after);
    RowPart::Muted { text: from_chars(out.as_slice()), tooltip: None }
}

fn button(id: &str, label: &str, action: RowAction) -> (part: RowPart)
    ensures
        part@ == Part::Button(id@, label@, None, action),
{
    RowPart::Button { id: own(id), label: own(label), tooltip: None, action }
}

fn retry(id: &str, error: &String, action: RowAction) -> (part: RowPart)
    ensures
        part@ == Part::Button(id@, "Retry"@, Some(error@), action),
{
    RowPart::Button { id: own(id), label: own("Retry"), tooltip: Some(error.clone()), action }
}

fn one(part: RowPart) -> (parts: Option<Vec<RowPart>>)
    ensures
        parts is Some,
        views(parts->0@) == seq![part@],
{
    let mut parts: Vec<RowPart> = Vec::new();
    parts.push(part);
    assert(views(parts@) =~= seq![part@]);
    Some(parts)
}

fn two(first: RowPart, second: RowPart) -> (parts: Option<Vec<RowPart>>)
    ensures
        parts is Some,
        views(parts->0@) == seq![first@, second@],
{
    let mut parts: Vec<RowPart> = Vec::new();
    parts.push(first);
    parts.push(second);
    assert(views(parts@) =~= seq![first@, second@]);
    Some(parts)
}

/// A muted text.
pub open spec fn note(text: Seq<char>) -> Part {
    Part::Muted(text, None)
}

/// The calendar's row.
pub open spec fn calendar_parts(state: State, now: u64) -> Option<Seq<Part>> {
    match state {
        State::NoConfig => None,
        State::NeverConnected => Some(
            seq![
                Part::Button(
                    "thock-connect-google-workspace"@,
                    "Connect Google Workspace"@,
                    None,
                    RowAction::ConnectWorkspace,
                ),
            ],
        ),
        State::Connecting => Some(seq![note("Calendar · "@ + "connecting…"@)]),
        State::Idle => Some(seq![note("Calendar · "@ + "waiting for first sync"@)]),
        State::Synced(at) => Some(seq![note("Calendar · synced "@ + ago(since(at, now)))]),
        State::Holding(reason) => Some(seq![note("Calendar · "@ + reason)]),
        State::Failing(error) => Some(
            seq![
                note("Calendar · "@ + "sync failed"@),
                Part::Button(
                    "thock-retry-calendar-sync"@,
                    "Retry"@,
                    Some(error),
                    RowAction::SyncCalendar,
                ),
            ],
        ),
        State::Disconnected => Some(
            seq![
                note("Calendar · "@ + "sign-in expired"@),
                Part::Button(
                    "thock-reconnect-calendar"@,
                    "Reconnect"@,
                    None,
                    RowAction::ConnectWorkspace,
                ),
            ],
        ),
    }
}

/// The calendar's row, hidden in a vault without a calendar configuration.
pub fn calendar_row(state: &SyncState, now: u64) -> (row: Option<Vec<RowPart>>)
    ensures
        match row {
            Some(parts) => calendar_parts(state@, now) == Some(views(parts@)),
            None => calendar_parts(state@, now) is None,
        },
{
    match state {
        SyncState::NoConfig => None,
        SyncState::NeverConnected => one(
            button(
                "thock-connect-google-workspace",
                "Connect Google Workspace",
                RowAction::ConnectWorkspace,
            ),
        ),
        SyncState::Connecting => one(muted("Calendar · ", "connecting…")),
        SyncState::Idle => one(muted("Calendar · ", "waiting for first sync")),
        SyncState::Synced { at } => one(
            muted("Calendar · synced ", format_ago(seconds_since(*at, now)).as_str()),
        ),
        SyncState::Holding { reason } => one(muted("Calendar · ", reason.as_str())),
        SyncState::Failing { error } => two(
            muted("Calendar · ", "sync failed"),
            retry("thock-retry-calendar-sync", error, RowAction::SyncCalendar),
        ),
        SyncState::Disconnected => two(
            muted("Calendar · ", "sign-in expired"),
            button("thock-reconnect-calendar", "Reconnect", RowAction::ConnectWorkspace),
        ),
    }
}

/// What a row says about a label of the older form.
pub const LEGACY_LABEL: &'static str = "Backlog · using the old \"backlog\" label";

/// How to leave the older form.
pub const LEGACY_LABEL_HINT: &'static str = "Capture still works — rename the label to \"thock/backlog\" in Gmail to finish the move.";

/// Gmail's row.
pub open spec fn gmail_parts(state: State, legacy_label: bool, now: u64) -> Option<Seq<Part>> {
    match state {
        State::NoConfig => None,
        State::NeverConnected => Some(
            seq![
                Part::Button(
                    "thock-connect-google-workspace-backlog"@,
                    "Connect Google Workspace"@,
                    None,
                    RowAction::ConnectWorkspace,
                ),
            ],
        ),
        State::Connecting => Some(seq![note("Gmail · "@ + "connecting…"@)]),
        State::Idle => Some(seq![note("Gmail · "@ + "waiting for first check"@)]),
        State::Synced(at) => if legacy_label {
            Some(seq![Part::Muted(LEGACY_LABEL@, Some(LEGACY_LABEL_HINT@))])
        } else {
            Some(seq![note("Gmail · checked "@ + ago(since(at, now)))])
        },
        State::Holding(reason) => Some(seq![note("Gmail · "@ + reason)]),
        State::Failing(error) => Some(
            seq![
                note("Gmail · "@ + "sync failed"@),
                Part::Button(
                    "thock-retry-gmail-sync"@,
                    "Retry"@,
                    Some(error),
                    RowAction::SyncGmail,
                ),
            ],
        ),
        State::Disconnected => Some(
            seq![
                note("Gmail · "@ + "sign-in needed"@),
                Part::Button(
                    "thock-reconnect-google-workspace"@,
                    "Reconnect"@,
                    None,
                    RowAction::ConnectWorkspace,
                ),
            ],
        ),
    }
}

/// Gmail's row, hidden in a vault without a Gmail configuration.
pub fn gmail_row(state: &SyncState, legacy_label: bool, now: u64) -> (row: Option<Vec<RowPart>>)
    ensures
        match row {
            Some(parts) => gmail_parts(state@, legacy_label, now) == Some(views(parts@)),
            None => gmail_parts(state@, legacy_label, now) is None,
        },
{
    match state {
        SyncState::NoConfig => None,
        SyncState::NeverConnected => one(
            button(
                "thock-connect-google-workspace-backlog",
                "Connect Google Workspace",
                RowAction::ConnectWorkspace,
            ),
        ),
        SyncState::Connecting => one(muted("Gmail · ", "connecting…")),
        SyncState::Idle => one(muted("Gmail · ", "waiting for first check")),
        SyncState::Synced { at } => {
            if legacy_label {
                one(
                    RowPart::Muted {
                        text: own(LEGACY_LABEL),
                        tooltip: Some(own(LEGACY_LABEL_HINT)),
                    },
                )
            } else {
                one(muted("Gmail · checked ", format_ago(seconds_since(*at, now)).as_str()))
            }
        },
        SyncState::Holding { reason } => one(muted("Gmail · ", reason.as_str())),
        SyncState::Failing { error } => two(
            muted("Gmail · ", "sync failed"),
            retry("thock-retry-gmail-sync", error, RowAction::SyncGmail),
        ),
        SyncState::Disconnected => two(
            muted("Gmail · ", "sign-in needed"),
            button("thock-reconnect-google-workspace", "Reconnect", RowAction::ConnectWorkspace),
        ),
    }
}

/// What the inbox's row says of a queue.
pub open spec fn waiting_text(depth: int) -> Seq<char> {
    "Inbox · "@ + decimal(depth as nat) + " waiting — triage"@
}

/// The inbox's row.
pub open spec fn inbox_parts(state: State, depth: int, gmail_shown: bool) -> Option<Seq<Part>> {
    match state {
        State::NoConfig => None,
        State::NeverConnected => if gmail_shown {
            None
        } else {
            Some(
                seq![
                    Part::Button(
                        "thock-connect-google-workspace-inbox"@,
                        "Connect Google Workspace"@,
                        None,
                        RowAction::ConnectWorkspace,
                    ),
                ],
            )
        },
        State::Connecting => Some(seq![note("Inbox · "@ + "connecting…"@)]),
        State::Idle => Some(seq![note("Inbox · "@ + "waiting for first check"@)]),
        State::Synced(_) => if depth == 0 {
            Some(seq![note("Inbox · "@ + "empty"@)])
        } else {
            Some(
                seq![
                    Part::Button(
                        "thock-triage-inbox"@,
                        waiting_text(depth),
                        None,
                        RowAction::TriageInbox,
                    ),
                ],
            )
        },
        State::Holding(reason) => Some(seq![note("Inbox · "@ + reason)]),
        State::Failing(error) => Some(
            seq![
                note("Inbox · "@ + "sync failed"@),
                Part::Button(
                    "thock-retry-inbox-sync"@,
                    "Retry"@,
                    Some(error),
                    RowAction::SyncInbox,
                ),
            ],
        ),
        State::Disconnected => Some(
            seq![
                note("Inbox · "@ + "sign-in expired"@),
                Part::Button(
                    "thock-reconnect-google-workspace-inbox"@,
                    "Reconnect"@,
                    None,
                    RowAction::ConnectWorkspace,
                ),
            ],
        ),
    }
}

/// The inbox's row, hidden in a vault without an inbox configuration. With
/// items waiting it is the way into triage. The connect button is left to
/// Gmail's row where that is shown.
pub fn inbox_row(state: &SyncState, queue_depth: usize, gmail_shown: bool) -> (row: Option<
    Vec<RowPart>,
>)
    ensures
        match row {
            Some(parts) => inbox_parts(state@, queue_depth as int, gmail_shown) == Some(
                views(parts@),
            ),
            None => inbox_parts(state@, queue_depth as int, gmail_shown) is None,
        },
{
    match state {
        SyncState::NoConfig => None,
        SyncState::NeverConnected => {
            if gmail_shown {
                return None;
            }
            one(
                button(
                    "thock-connect-google-workspace-inbox",
                    "Connect Google Workspace",
                    RowAction::ConnectWorkspace,
                ),
            )
        },
        SyncState::Connecting => one(muted("Inbox · ", "connecting…")),
        SyncState::Idle => one(muted("Inbox · ", "waiting for first check")),
        SyncState::Synced { at: _ } => {
            if queue_depth == 0 {
                return one(muted("Inbox · ", "empty"));
            }
            let mut out: Vec<char> = to_chars("Inbox · ");
            append_decimal(&mut out, queue_depth as u64);
            append_str(&mut out, " waiting — triage");
            let label = from_chars(out.as_slice());
            one(button("thock-triage-inbox", label.as_str(), RowAction::TriageInbox))
        },
        SyncState::Holding { reason } => one(muted("Inbox · ", reason.as_str())),
        SyncState::Failing { error } => two(
            muted("Inbox · ", "sync failed"),
            retry("thock-retry-inbox-sync", error, RowAction::SyncInbox),
        ),
        SyncState::Disconnected => two(
            muted("Inbox · ", "sign-in expired"),
            button(
                "thock-reconnect-google-workspace-inbox",
                "Reconnect",
                RowAction::ConnectWorkspace,
            ),
        ),
    }
}

/// A vault that is connected to nothing offers one connect button at most per
/// panel: the inbox's row leaves it to Gmail's.
pub proof fn one_connect_button(gmail: State, inbox: State, legacy: bool, depth: int, now: u64)
    requires
        !(gmail is NoConfig),
        inbox is NeverConnected,
    ensures
        gmail_parts(gmail, legacy, now) is Some,
        inbox_parts(inbox, depth, !(gmail is NoConfig)) is None,
{
}

} // verus!
