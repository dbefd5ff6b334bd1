//! What the sync services have in common: their states, when they poll, how
//! they back off, and what a finished sync announces.

use vstd::prelude::*;
use crate::format::{append_decimal, decimal};
use crate::text::{append_str, from_chars, own, to_chars};

verus! {

/// The folder of a vault that holds its configuration and state.
pub const VAULT_MARKER_DIR: &'static str = ".thock";

/// The vault configuration's file name.
pub const VAULT_CONFIG_FILE: &'static str = "config.toml";

/// The connection's configuration file name.
pub const GOOGLE_CONFIG_FILE: &'static str = "google.toml";

/// The longest delay between two polls, in seconds.
pub const BACKOFF_CEILING: u64 = 3600;

/// What a service's status row shows.
#[derive(Debug, Clone, PartialEq)]
pub enum SyncState {
    /// The vault has no configuration for the service: the feature stays
    /// invisible, and the row is hidden.
    NoConfig,
    /// A configuration exists but no account is connected.
    NeverConnected,
    Connecting,
    /// Connected, waiting for the first sync of the session.
    Idle,
    Synced {
        /// In seconds of a clock that never goes back.
        at: u64,
    },
    /// Connected but holding: nothing is wrong, and nothing can be done yet.
    Holding { reason: String },
    Failing { error: String },
    /// The sign-in expired or was revoked.
    Disconnected,
}

/// What a state says.
pub enum State {
    NoConfig,
    NeverConnected,
    Connecting,
    Idle,
    Synced(u64),
    Holding(Seq<char>),
    Failing(Seq<char>),
    Disconnected,
}

impl View for SyncState {
    type V = State;

    open spec fn view(&self) -> State {
        match *self {
            SyncState::NoConfig => State::NoConfig,
            SyncState::NeverConnected => State::NeverConnected,
            SyncState::Connecting => State::Connecting,
            SyncState::Idle => State::Idle,
            SyncState::Synced { at } => State::Synced(at),
            SyncState::Holding { reason } => State::Holding(reason@),
            SyncState::Failing { error } => State::Failing(error@),
            SyncState::Disconnected => State::Disconnected,
        }
    }
}

/// How a sync ended.
#[derive(Debug, Clone, PartialEq)]
pub enum SyncOutcome {
    Synced {
        /// The notes landed by the poll.
        captured: usize,
    },
    Held(String),
    Failed(String),
    AuthRevoked,
    /// The service was reconfigured or released in the middle.
    Aborted,
}

/// What an outcome says.
pub enum Ended {
    Synced(usize),
    Held(Seq<char>),
    Failed(Seq<char>),
    AuthRevoked,
    Aborted,
}

impl View for SyncOutcome {
    type V = Ended;

    open spec fn view(&self) -> Ended {
        match *self {
            SyncOutcome::Synced { captured } => Ended::Synced(captured),
            SyncOutcome::Held(reason) => Ended::Held(reason@),
            SyncOutcome::Failed(error) => Ended::Failed(error@),
            SyncOutcome::AuthRevoked => Ended::AuthRevoked,
            SyncOutcome::Aborted => Ended::Aborted,
        }
    }
}

/// A service.
#[derive(Debug, Clone, Copy, PartialEq, Eq, Structural)]
pub enum Feature {
    Calendar,
    Gmail,
    Inbox,
}

/// A service's name in front of a sentence.
pub open spec fn feature_name(feature: Feature) -> Seq<char> {
    match feature {
        Feature::Calendar => "Calendar"@,
        Feature::Gmail => "Gmail"@,
        Feature::Inbox => "Inbox"@,
    }
}

/// What a service reconnects for.
pub open spec fn feature_object(feature: Feature) -> Seq<char> {
    match feature {
        Feature::Calendar => "your calendar"@,
        Feature::Gmail => "Gmail"@,
        Feature::Inbox => "the inbox"@,
    }
}

/// What a finished sync says of what it found. The calendar's says nothing.
pub open spec fn found_text(feature: Feature, captured: int) -> Seq<char> {
    let noun = match feature {
        Feature::Gmail => "email"@,
        _ => "item"@,
    };
    if feature == Feature::Calendar {
        Seq::empty()
    } else if captured == 0 {
        " — nothing new"@
    } else if captured == 1 {
        " — 1 new "@ + noun
    } else {
        " — "@ + decimal(captured as nat) + " new "@ + noun + "s"@
    }
}

/// What a sync that the user asked for announces.
pub open spec fn announced(feature: Feature, ended: Ended) -> Option<Seq<char>> {
    match ended {
        Ended::Aborted => None,
        Ended::Synced(captured) => Some(
            feature_name(feature) + " synced"@ + found_text(feature, captured as int),
        ),
        Ended::Held(reason) => Some(feature_name(feature) + " sync held — "@ + reason),
        Ended::Failed(error) => Some(feature_name(feature) + " sync failed — "@ + error),
        Ended::AuthRevoked => Some(
            "Google sign-in expired — reconnect to sync "@ + feature_object(feature),
        ),
    }
}

fn append_found(out: &mut Vec<char>, feature: Feature, captured: usize)
    ensures
        final(out)@ == old(out)@ + found_text(feature, captured as int),
{
    if feature == Feature::Calendar {
        assert(out@ =~= old(out)@ + found_text(feature, captured as int));
        return;
    }
    let noun: &str = match feature {
        Feature::Gmail => "email",
        _ => "item",
    };
    if captured == 0 {
        append_str(out, " — nothing new");
    } else if captured == 1 {
        append_str(out, " — 1 new ");
        append_str(out, noun);
    } else {
        append_str(out, " — ");
        append_decimal(out, captured as u64);
        append_str(out, " new ");
        append_str(out, noun);
        append_str(out, "s");
    }
    assert(out@ =~= old(out)@ + found_text(feature, captured as int));
}

/// What a sync that the user asked for announces.
pub fn announcement(feature: Feature, outcome: &SyncOutcome) -> (message: Option<String>)
    ensures
        match message {
            Some(m) => announced(feature, outcome@) == Some(m@),
            None => announced(feature, outcome@) is None,
        },
{
    let name: &str = match feature {
        Feature::Calendar => "Calendar",
        Feature::Gmail => "Gmail",
        Feature::Inbox => "Inbox",
    };
    let mut out: Vec<char> = to_chars(name);
    match outcome {
        SyncOutcome::Aborted => {
            return None;
        },
        SyncOutcome::Synced { captured } => {
            append_str(&mut out, " synced");
            append_found(&mut out, feature, *captured);
        },
        SyncOutcome::Held(reason) => {
            append_str(&mut out, " sync held — ");
            append_str(&mut out, reason.as_str());
        },
        SyncOutcome::Failed(error) => {
            append_str(&mut out, " sync failed — ");
            append_str(&mut out, error.as_str());
        },
        SyncOutcome::AuthRevoked => {
            let object: &str = match feature {
                Feature::Calendar => "your calendar",
                Feature::Gmail => "Gmail",
                Feature::Inbox => "the inbox",
            };
            out = to_chars("Google sign-in expired — reconnect to sync ");
            append_str(&mut out, object);
        },
    }
    Some(from_chars(out.as_slice()))
}

/// Settings that can be told apart.
pub trait Settings: View + Sized {
    /// Whether both say the same.
    fn same(&self, other: &Self) -> (yes: bool)
        ensures
            yes == (self@ == other@),
    ;
}

/// What a service found when it looked at its vault again.
pub enum Loaded<C> {
    /// The workspace is no vault.
    NoVault,
    /// The vault has no configuration for the service.
    NoConfig,
    /// The configuration cannot be parsed.
    Unreadable,
    /// There is a configuration, and no account.
    NoAccount(C),
    /// There is a configuration and an account.
    Account(C),
}

/// A service: its settings, whether it is connected and polls, and the state
/// that it shows.
pub struct SyncService<C> {
    pub has_vault: bool,
    pub config: Option<C>,
    /// Whether there is something to poll.
    pub connected: bool,
    /// Whether the poll loop runs.
    pub polling: bool,
    /// Set by a sync that the user asked for, so that it announces itself;
    /// background polls stay quiet.
    pub announce_next_sync: bool,
    pub state: SyncState,
}

/// What a service holds.
pub struct Status<V> {
    pub has_vault: bool,
    pub config: Option<V>,
    pub connected: bool,
    pub polling: bool,
    pub announce: bool,
    pub state: State,
}

impl<C: Settings> View for SyncService<C> {
    type V = Status<C::V>;

    open spec fn view(&self) -> Status<C::V> {
        Status {
            has_vault: self.has_vault,
            config: match self.config {
                Some(c) => Some(c@),
                None => None,
            },
            connected: self.connected,
            polling: self.polling,
            announce: self.announce_next_sync,
            state: self.state@,
        }
    }
}

/// A service with its settings forgotten and its polling stopped.
pub open spec fn cleared<V>(s: Status<V>, state: State) -> Status<V> {
    Status { config: None, connected: false, polling: false, state, ..s }
}

/// A service that looked at its vault again.
pub open spec fn reloaded<V>(s: Status<V>, loaded: Loaded<V>, unreadable: Seq<char>) -> Status<V> {
    let here = Status { has_vault: true, ..s };
    match loaded {
        Loaded::NoVault => cleared(Status { has_vault: false, ..s }, State::NoConfig),
        Loaded::NoConfig => cleared(here, State::NoConfig),
        Loaded::Unreadable => cleared(here, State::Failing(unreadable)),
        Loaded::NoAccount(c) => Status {
            config: Some(c),
            connected: false,
            polling: false,
            state: State::NeverConnected,
            ..here
        },
        Loaded::Account(c) => if s.connected && s.config == Some(c) {
            here
        } else {
            Status { config: Some(c), ..here }
        },
    }
}

/// What was found, by its views.
pub open spec fn loaded_view<C: View>(loaded: Loaded<C>) -> Loaded<C::V> {
    match loaded {
        Loaded::NoVault => Loaded::NoVault,
        Loaded::NoConfig => Loaded::NoConfig,
        Loaded::Unreadable => Loaded::Unreadable,
        Loaded::NoAccount(c) => Loaded::NoAccount(c@),
        Loaded::Account(c) => Loaded::Account(c@),
    }
}

/// The state that an outcome leads to.
pub open spec fn state_after(state: State, ended: Ended, now: u64) -> State {
    match ended {
        Ended::Aborted => state,
        Ended::Synced(_) => State::Synced(now),
        Ended::Held(reason) => State::Holding(reason),
        Ended::Failed(error) => State::Failing(error),
        Ended::AuthRevoked => State::Disconnected,
    }
}

/// Whether the poll loop goes on.
pub open spec fn goes_on(ended: Ended) -> bool {
    !(ended is Aborted) && !(ended is AuthRevoked)
}

/// The delay until the next poll: the interval after an answer, and double the
/// last delay, up to the ceiling, after an error.
pub open spec fn delay_after(ended: Ended, interval: int, delay: int) -> int {
    match ended {
        Ended::Synced(_) | Ended::Held(_) => interval,
        Ended::Failed(_) => if 2 * delay < 3600 {
            2 * delay
        } else {
            3600
        },
        _ => delay,
    }
}

impl<C: Settings> SyncService<C> {
    /// A service that has not looked at its vault yet.
    pub fn new() -> (service: Self)
        ensures
            service@ == (Status {
                has_vault: false,
                config: None::<C::V>,
                connected: false,
                polling: false,
                announce: false,
                state: State::NoConfig,
            }),
    {
        SyncService {
            has_vault: false,
            config: None,
            connected: false,
            polling: false,
            announce_next_sync: false,
            state: SyncState::NoConfig,
        }
    }

    /// The state to show.
    pub fn state(&self) -> (state: &SyncState)
        ensures
            state@ == self@.state,
    {
        &self.state
    }

    /// Whether the workspace is a vault.
    pub fn has_vault(&self) -> (yes: bool)
        ensures
            yes == self@.has_vault,
    {
        self.has_vault
    }

    /// Whether the status row is shown at all.
    pub fn has_config(&self) -> (yes: bool)
        ensures
            yes == !(self@.state is NoConfig),
    {
        match self.state {
            SyncState::NoConfig => false,
            _ => true,
        }
    }

    fn clear_sync(&mut self, state: SyncState)
        ensures
            final(self)@ == cleared(old(self)@, state@),
    {
        self.config = None;
        self.connected = false;
        self.polling = false;
        self.state = state;
    }

    /// Takes in what the vault holds now. The result is whether the connection
    /// has to be built anew: only where the configuration changed, or there was
    /// none.
    pub fn reload(&mut self, loaded: Loaded<C>, unreadable: &str) -> (build: bool)
        ensures
            final(self)@ == reloaded(old(self)@, loaded_view(loaded), unreadable@),
            build == (loaded_view(loaded) matches Loaded::Account(c) && !(old(self)@.connected
                && old(self)@.config == Some(c))),
    {
        match loaded {
            Loaded::NoVault => {
                self.has_vault = false;
                self.clear_sync(SyncState::NoConfig);
                false
            },
            Loaded::NoConfig => {
                self.has_vault = true;
                self.clear_sync(SyncState::NoConfig);
                false
            },
            Loaded::Unreadable => {
                self.has_vault = true;
                self.clear_sync(SyncState::Failing { error: own(unreadable) });
                false
            },
            Loaded::NoAccount(config) => {
                self.has_vault = true;
                self.config = Some(config);
                self.connected = false;
                self.polling = false;
                self.state = SyncState::NeverConnected;
                false
            },
            Loaded::Account(config) => {
                self.has_vault = true;
                let unchanged: bool = self.connected && match &self.config {
                    Some(known) => known.same(&config),
                    None => false,
                };
                if !unchanged {
                    self.config = Some(config);
                }
                !unchanged
            },
        }
    }

    /// Takes in the connection that was built, or why there is none. With one,
    /// polling starts at once; `connected` is whether there is anything to
    /// poll.
    pub fn built(&mut self, result: Result<bool, String>)
        ensures
            final(self)@ == (match result {
                Ok(connected) => Status {
                    connected,
                    polling: true,
                    state: State::Idle,
                    ..old(self)@
                },
                Err(error) => cleared(old(self)@, State::Failing(error@)),
            }),
    {
        match result {
            Ok(connected) => {
                self.connected = connected;
                self.polling = true;
                self.state = SyncState::Idle;
            },
            Err(error) => {
                self.clear_sync(SyncState::Failing { error });
            },
        }
    }

    /// The connect flow started: a service whose row is shown shows progress.
    pub fn mark_connecting(&mut self)
        ensures
            final(self)@ == (if old(self)@.state is NoConfig {
                old(self)@
            } else {
                Status { state: State::Connecting, ..old(self)@ }
            }),
    {
        if self.has_config() {
            self.state = SyncState::Connecting;
        }
    }

    /// The sign-out ran: polling stops and the connection is forgotten. The
    /// vault is never touched.
    pub fn mark_signed_out(&mut self)
        ensures
            final(self)@ == (Status {
                connected: false,
                polling: false,
                state: if old(self)@.config is Some {
                    State::NeverConnected
                } else {
                    old(self)@.state
                },
                ..old(self)@
            }),
    {
        self.polling = false;
        self.connected = false;
        if self.config.is_some() {
            self.state = SyncState::NeverConnected;
        }
    }

    /// The user asked for a sync: where there is something to poll, the loop
    /// restarts, and the next sync announces itself. The result is whether it
    /// does.
    pub fn sync_now(&mut self) -> (restart: bool)
        ensures
            restart == old(self)@.connected,
            final(self)@ == (if old(self)@.connected {
                Status { announce: true, polling: true, ..old(self)@ }
            } else {
                old(self)@
            }),
    {
        if self.connected {
            self.announce_next_sync = true;
            self.polling = true;
            return true;
        }
        false
    }

    /// Takes in how a sync ended: whether the loop goes on, the delay until the
    /// next poll, and what to announce.
    pub fn finish_sync(
        &mut self,
        feature: Feature,
        outcome: SyncOutcome,
        interval: u64,
        delay: u64,
        now: u64,
    ) -> (next: (bool, u64, Option<String>))
        requires
            delay <= u64::MAX / 2,
        ensures
            final(self)@ == (Status {
                announce: false,
                connected: old(self)@.connected && !(outcome@ is AuthRevoked),
                polling: old(self)@.polling && goes_on(outcome@),
                state: state_after(old(self)@.state, outcome@, now),
                ..old(self)@
            }),
            next.0 == goes_on(outcome@),
            next.1 == delay_after(outcome@, interval as int, delay as int),
            match next.2 {
                Some(m) => old(self)@.announce && announced(feature, outcome@) == Some(m@),
                None => !old(self)@.announce || announced(feature, outcome@) is None,
            },
    {
        let message: Option<String> = if self.announce_next_sync {
            announcement(feature, &outcome)
        } else {
            None
        };
        self.announce_next_sync = false;
        match outcome {
            SyncOutcome::Aborted => {
                self.polling = false;
                (false, delay, message)
            },
            SyncOutcome::Synced { captured: _ } => {
                self.state = SyncState::Synced { at: now };
                (true, interval, message)
            },
            SyncOutcome::Held(reason) => {
                self.state = SyncState::Holding { reason };
                (true, interval, message)
            },
            SyncOutcome::Failed(error) => {
                self.state = SyncState::Failing { error };
                let doubled: u64 = delay * 2;
                (true, if doubled < BACKOFF_CEILING { doubled } else { BACKOFF_CEILING }, message)
            },
            SyncOutcome::AuthRevoked => {
                self.state = SyncState::Disconnected;
                self.connected = false;
                self.polling = false;
                (false, delay, message)
            },
        }
    }
}

/// The delay never gets past the ceiling where the interval does not, and an
/// answer brings it back to the interval.
pub proof fn backoff_is_bounded(ended: Ended, interval: int, delay: int)
    requires
        0 < interval <= 3600,
        0 < delay <= 3600,
    ensures
        0 < delay_after(ended, interval, delay) <= 3600,
        ended is Failed ==> delay_after(ended, interval, delay) >= delay,
        ended is Synced || ended is Held ==> delay_after(ended, interval, delay) == interval,
{
}

/// Looking at an unchanged vault again changes nothing, in any state that a
/// look at it leaves.
pub proof fn reload_is_idempotent<V>(s: Status<V>, loaded: Loaded<V>, unreadable: Seq<char>)
    ensures
        ({
            let once = reloaded(s, loaded, unreadable);
            reloaded(once, loaded, unreadable) == once
        }),
{
}

/// Whether one of the paths is the given file of the configuration folder, or
/// one that the connection or the vault is configured by.
pub open spec fn touches_config(paths: Seq<Seq<char>>, file: Seq<char>) -> bool {
    paths.contains(".thock/"@ + file) || paths.contains(".thock/google.toml"@) || paths.contains(
        ".thock/config.toml"@,
    )
}

/// Whether a change to the given paths means that a service has to look at its
/// vault again.
pub fn config_changed(paths: &[String], file: &str) -> (yes: bool)
    ensures
        yes == touches_config(crate::lines::strings(paths@), file@),
{
    let mut own_file: Vec<char> = to_chars(".thock/");
    append_str(&mut own_file, file);
    let own_file = from_chars(own_file.as_slice());
    crate::words::list_holds(paths, own_file.as_str()) || crate::words::list_holds(
        paths,
        ".thock/google.toml",
    ) || crate::words::list_holds(paths, ".thock/config.toml")
}

/// How long a burst of typing defers an edit of an open buffer, in seconds.
pub const TYPING_GUARD_QUIET: u64 = 2;

/// How often it does so at most.
pub const TYPING_GUARD_MAX_TRIES: usize = 15;

/// How often an edit of an open buffer is tried.
pub const APPLY_MAX_TRIES: usize = 3;

/// What an edit of an open buffer does next.
#[derive(Debug, Clone, Copy, PartialEq, Eq, Structural)]
pub enum BufferStep {
    /// Wait for a quiet window, and look whether the buffer changed meanwhile.
    Wait,
    /// Compute the edit from the buffer's text, and apply it.
    Apply,
    /// It is applied.
    Done,
    /// The buffer kept changing.
    GiveUp,
}

/// What comes after the given number of quiet windows, the last of which the
/// buffer stayed unchanged in or not.
pub fn after_wait(waits: usize, unchanged: bool) -> (step: BufferStep)
    ensures
        step == (if (waits > 0 && unchanged) || waits >= 15 {
            BufferStep::Apply
        } else {
            BufferStep::Wait
        }),
{
    if (waits > 0 && unchanged) || waits >= TYPING_GUARD_MAX_TRIES {
        BufferStep::Apply
    } else {
        BufferStep::Wait
    }
}

/// What comes after the given number of tries, the last of which was applied or
/// refused as stale.
pub fn after_apply(tries: usize, applied: bool) -> (step: BufferStep)
    ensures
        step == (if applied {
            BufferStep::Done
        } else if tries >= 3 {
            BufferStep::GiveUp
        } else {
            BufferStep::Apply
        }),
{
    if applied {
        BufferStep::Done
    } else if tries >= APPLY_MAX_TRIES {
        BufferStep::GiveUp
    } else {
        BufferStep::Apply
    }
}

} // verus!
