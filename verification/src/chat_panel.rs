//! The panel that hosts the hosted agent in a chat: where its connection
//! stands, what a launch and a message do, what the keyboard does, and what the
//! panel shows. There are no per-change approval prompts: safety is the
//! vault-scoped process and the checkpoint taken before each session.

use vstd::prelude::*;
use crate::agent::ModelTier;
use crate::agent_panel::{LaunchRequest, Request};
use crate::elicitation::{answer_focus, AnswerFocus, ElicitationShape};
use crate::format::{append_decimal, decimal, to_uppercase, uppercase};
use crate::inbox::{copy_text, text_of};
use crate::lines::strings;
use crate::text::{append_str, from_chars, own, same_str, to_chars, trim, trimmed};
use crate::transcript::{
    activity_at, activity_with, items_view, key_of, ChatItem, Chunk, ItemKey, Key, ThreadEntry,
};
use crate::words::{holds, list_holds, without_text};

verus! {

/// Which agent runs the user's actions.
#[derive(Debug, Clone, Copy, PartialEq, Eq, Structural)]
pub enum ConnectionMode {
    /// The hosted agent, in the chat.
    Hosted,
    /// The user's own agent, in the terminal panel.
    Byo,
}

/// What the agent's model gateway takes.
#[derive(Debug, Clone, PartialEq)]
pub struct Gateway {
    pub api_key: String,
    pub default_model: String,
    pub fast_model: String,
}

/// What a subscription allows, as last read.
#[derive(Debug, Clone, PartialEq)]
pub struct Entitlement {
    pub plan_name: String,
    pub used_percent: u64,
    /// The allowance is past its warning mark.
    pub running_low: bool,
    /// Nothing of the allowance is left.
    pub exhausted: bool,
    pub balance_summary: String,
    pub gateway: Option<Gateway>,
    /// How many turns a session may have; zero means any number.
    pub max_turns_per_session: u32,
}

/// Where the connection stands, as last learned.
#[derive(Debug, Clone, PartialEq)]
pub enum PlusConnection {
    /// The credential is still being read.
    Loading,
    Disconnected,
    Connected {
        credential: String,
        entitlement: Entitlement,
        /// The warning comes once per crossing, not per read.
        warned_low: bool,
    },
    /// The credential was turned off, with the reason given for it.
    Revoked(String),
}

/// How reading the entitlement went.
#[derive(Debug, Clone, PartialEq)]
pub enum Fetched {
    Read(Entitlement),
    /// The service refused.
    Refused { message: String, invalidates_credential: bool },
    Unreachable,
}

/// A turn that could not finish.
#[derive(Debug, Clone, Copy, PartialEq)]
pub struct TurnFailure {
    pub message: &'static str,
    pub retryable: bool,
}

/// A running chat.
#[derive(Debug, Clone, PartialEq)]
pub struct ChatSession {
    pub title: String,
    pub turns: u32,
    /// Zero means any number.
    pub max_turns: u32,
    /// A turn that could not finish gets one plain line.
    pub turn_failure: Option<TurnFailure>,
    /// The last message sent, for trying again.
    pub last_sent: Option<String>,
}

/// What the panel shows.
#[derive(Debug, Clone, PartialEq)]
pub enum ChatView {
    Chat,
    /// The field for an invite code.
    Connect { busy: bool, error: Option<String> },
}

/// The panel's state.
pub struct ChatPanel {
    /// Whether the workspace is a vault.
    pub has_vault: bool,
    pub connection: PlusConnection,
    /// The explicit choice of an agent, if any.
    pub mode: Option<ConnectionMode>,
    pub view: ChatView,
    pub session: Option<ChatSession>,
    /// What the launch is doing while there is no session yet.
    pub starting: Option<&'static str>,
    pub selected: Option<ItemKey>,
    /// The activities whose detail is open, by their keys.
    pub expanded: Vec<String>,
    /// The highlighted option of each pending question, by its id.
    pub choices: Vec<(String, usize)>,
    pub show_usage: bool,
    /// A launch that waits for the connection.
    pub pending_launch: Option<LaunchRequest>,
    pub memory_nudge_due: bool,
}

pub const SETTING_UP: &'static str = "Setting up the Thock Agent…";

pub const STARTING: &'static str = "Starting the Thock Agent…";

pub const OPEN_A_VAULT: &'static str = "Open a Thock vault to use the Thock Agent; it works inside your notes folder.";

pub const ALLOWANCE_GONE: &'static str = "The Thock Agent has used all of this cycle's allowance. It comes back with the next cycle, or sooner with a top-up.";

pub const NO_AGENT_KEY: &'static str = "Thock Plus didn't hand out an agent key. Try reconnecting.";

pub const OUT_OF_ALLOWANCE: &'static str = "The Thock Agent has used all of this cycle's allowance.";

pub const TOO_LONG: &'static str = "This chat has reached its length limit. Start a new chat to keep going.";

pub const STILL_WORKING: &'static str = "The Thock Agent is still working. Wait for it, or stop it first.";

pub const COULD_NOT_FINISH: &'static str = "The Thock Agent couldn't finish that.";

pub const DECIDED_NOT_TO: &'static str = "The Thock Agent decided not to do that.";

pub const SIGN_IN_FAILED: &'static str = "The Thock Agent couldn't sign in to its model gateway. Reconnect Thock Plus and try again.";

pub const NOT_SAVED: &'static str = "Connected, but the credential couldn't be saved to your keychain; you will need to connect again next time.";

pub const NO_CODE: &'static str = "Enter the invite code you were given.";

/// The agent that runs the user's actions: the one chosen, else the hosted one
/// where it is connected.
pub open spec fn mode_of(mode: Option<ConnectionMode>, connection: PlusConnection) ->
    ConnectionMode {
    match mode {
        Some(m) => m,
        None => if connection is Connected {
            ConnectionMode::Hosted
        } else {
            ConnectionMode::Byo
        },
    }
}

/// The entitlement of a connection.
pub open spec fn entitlement_of(connection: PlusConnection) -> Option<Entitlement> {
    match connection {
        PlusConnection::Connected { entitlement, .. } => Some(entitlement),
        _ => None,
    }
}

/// The warning that the allowance runs low.
pub open spec fn low_warning(entitlement: Entitlement) -> Seq<char> {
    "The Thock Agent has used "@ + decimal(entitlement.used_percent as nat)
        + "% of this cycle's allowance."@
}

/// Whether a connection has warned of a low allowance.
pub open spec fn has_warned(connection: PlusConnection) -> bool {
    connection matches PlusConnection::Connected { warned_low, .. } && warned_low
}

/// The connection after an entitlement was read: a balance, a revocation, or a
/// failure that keeps a connection that there was.
pub open spec fn after_fetch(
    connection: PlusConnection,
    credential: String,
    fetched: Fetched,
) -> PlusConnection {
    match fetched {
        Fetched::Read(entitlement) => PlusConnection::Connected {
            credential,
            entitlement,
            warned_low: has_warned(connection) || entitlement.running_low,
        },
        Fetched::Refused { message, invalidates_credential } => if invalidates_credential {
            PlusConnection::Revoked(message)
        } else if connection is Connected {
            connection
        } else {
            PlusConnection::Disconnected
        },
        Fetched::Unreachable => if connection is Connected {
            connection
        } else {
            PlusConnection::Disconnected
        },
    }
}

/// What reading the entitlement asks of the caller.
#[derive(Debug, Clone, PartialEq)]
pub struct EntitlementNews {
    /// A warning for the user.
    pub warning: Option<String>,
    /// The stored credential is to be deleted.
    pub forget_credential: bool,
}

/// What a launch does.
#[derive(Debug, PartialEq)]
pub enum ChatLaunch {
    /// Tell the user.
    Refuse(&'static str),
    /// It waits for the connection.
    Wait,
    /// It waits for the connect flow, which is on screen.
    Connect,
    /// Tell the user, and run it with their own agent.
    FallBack { message: String, request: LaunchRequest },
    /// Take a checkpoint, count the session, and start it.
    Go { request: LaunchRequest, api_key: String, model: String, max_turns: u32 },
}

/// The model of a gateway for a tier.
pub open spec fn model_for(gateway: Gateway, tier: ModelTier) -> Seq<char> {
    match tier {
        ModelTier::Default => gateway.default_model@,
        ModelTier::Fast => gateway.fast_model@,
    }
}

/// What sending a message does.
#[derive(Debug, Clone, PartialEq)]
pub enum SendStep {
    Nothing,
    /// Tell the user.
    Refuse(&'static str),
    /// Hand the text to the agent.
    Send(String),
}

/// What sending a text does.
pub enum Sending {
    Nothing,
    Refuse(Seq<char>),
    Send(Seq<char>),
}

impl View for SendStep {
    type V = Sending;

    open spec fn view(&self) -> Sending {
        match *self {
            SendStep::Nothing => Sending::Nothing,
            SendStep::Refuse(m) => Sending::Refuse(m@),
            SendStep::Send(t) => Sending::Send(t@),
        }
    }
}

/// What sending a text does: an empty one nothing, and it is refused once the
/// allowance is gone, the chat is too long, or a turn is running.
pub open spec fn sending(
    session: Option<ChatSession>,
    connection: PlusConnection,
    text: Seq<char>,
    generating: bool,
) -> Sending {
    if trim(text).len() == 0 {
        Sending::Nothing
    } else if entitlement_of(connection) matches Some(e) && e.exhausted {
        Sending::Refuse(OUT_OF_ALLOWANCE@)
    } else {
        match session {
            None => Sending::Nothing,
            Some(s) => if s.max_turns > 0 && s.turns >= s.max_turns {
                Sending::Refuse(TOO_LONG@)
            } else if generating {
                Sending::Refuse(STILL_WORKING@)
            } else {
                Sending::Send(trim(text))
            },
        }
    }
}

/// What the message box does with its text.
#[derive(Debug, PartialEq)]
pub enum MessageStep {
    Nothing,
    /// Empty the box, and send the text.
    Send,
    /// Empty the box, and launch a chat that begins with the text.
    Launch(LaunchRequest),
}

/// An event of the thread that ends a turn badly.
#[derive(Debug, Clone, Copy, PartialEq, Eq, Structural)]
pub enum TurnEvent {
    /// The turn, the session or the request failed.
    Error,
    Refusal,
}

/// The failure that an event leaves.
pub open spec fn is_failure(failure: Option<TurnFailure>, event: TurnEvent) -> bool {
    &&& failure matches Some(f)
    &&& match event {
        TurnEvent::Error => f.message@ == COULD_NOT_FINISH@ && f.retryable,
        TurnEvent::Refusal => f.message@ == DECIDED_NOT_TO@ && !f.retryable,
    }
}

/// The highlighted option of a question.
pub open spec fn choice_of(choices: Seq<(String, usize)>, id: Seq<char>) -> Option<usize>
    decreases choices.len(),
{
    if choices.len() == 0 {
        None
    } else if choices.last().0@ == id {
        Some(choices.last().1)
    } else {
        choice_of(choices.drop_last(), id)
    }
}

/// Whether the state keyed to a session's transcript is empty.
pub open spec fn no_transcript(panel: ChatPanel) -> bool {
    panel.selected is None && panel.expanded@.len() == 0 && panel.choices@.len() == 0
}

impl ChatPanel {
    /// A panel whose connection is still being read.
    pub fn new() -> (panel: Self)
        ensures
            !panel.has_vault,
            panel.connection == PlusConnection::Loading,
            panel.mode is None,
            panel.view == ChatView::Chat,
            panel.session is None,
            panel.starting is None,
            no_transcript(panel),
            !panel.show_usage,
            panel.pending_launch is None,
            !panel.memory_nudge_due,
    {
        ChatPanel {
            has_vault: false,
            connection: PlusConnection::Loading,
            mode: None,
            view: ChatView::Chat,
            session: None,
            starting: None,
            selected: None,
            expanded: Vec::new(),
            choices: Vec::new(),
            show_usage: false,
            pending_launch: None,
            memory_nudge_due: false,
        }
    }

    /// The agent that runs the user's actions.
    pub fn effective_mode(&self) -> (mode: ConnectionMode)
        ensures
            mode == mode_of(self.mode, self.connection),
    {
        match self.mode {
            Some(mode) => mode,
            None => match &self.connection {
                PlusConnection::Connected { .. } => ConnectionMode::Hosted,
                _ => ConnectionMode::Byo,
            },
        }
    }

    /// Folds a read of the entitlement into the connection.
    pub fn apply_entitlement_result(&mut self, credential: String, fetched: Fetched) -> (news:
        EntitlementNews)
        ensures
            *final(self) == (ChatPanel {
                connection: after_fetch(old(self).connection, credential, fetched),
                ..*old(self)
            }),
            text_of(news.warning) == (match fetched {
                Fetched::Read(e) => if e.running_low && !has_warned(old(self).connection) {
                    Some(low_warning(e))
                } else {
                    None
                },
                _ => None,
            }),
            news.forget_credential == (fetched matches Fetched::Refused {
                invalidates_credential,
                ..
            } && invalidates_credential),
    {
        let connected: bool = match &self.connection {
            PlusConnection::Connected { .. } => true,
            _ => false,
        };
        match fetched {
            Fetched::Read(entitlement) => {
                let warned_low: bool = match &self.connection {
                    PlusConnection::Connected { warned_low, .. } => *warned_low,
                    _ => false,
                };
                let warning = if entitlement.running_low && !warned_low {
                    let mut out: Vec<char> = to_chars("The Thock Agent has used ");
                    append_decimal(&mut out, entitlement.used_percent);
                    append_str(&mut out, "% of this cycle's allowance.");
                    Some(from_chars(out.as_slice()))
                } else {
                    None
                };
                let low: bool = warned_low || entitlement.running_low;
                self.connection =
                PlusConnection::Connected { credential, entitlement, warned_low: low };
                EntitlementNews { warning, forget_credential: false }
            },
            Fetched::Refused { message, invalidates_credential } => {
                if invalidates_credential {
                    self.connection = PlusConnection::Revoked(message);
                    EntitlementNews { warning: None, forget_credential: true }
                } else {
                    if !connected {
                        self.connection = PlusConnection::Disconnected;
                    }
                    EntitlementNews { warning: None, forget_credential: false }
                }
            },
            Fetched::Unreachable => {
                if !connected {
                    self.connection = PlusConnection::Disconnected;
                }
                EntitlementNews { warning: None, forget_credential: false }
            },
        }
    }

    /// Takes in that there is no stored credential.
    pub fn no_credential(&mut self)
        ensures
            *final(self) == (ChatPanel {
                connection: PlusConnection::Disconnected,
                ..*old(self)
            }),
    {
        self.connection = PlusConnection::Disconnected;
    }

    /// The launch that waited, once the connection is known.
    pub fn continue_pending_launch(&mut self) -> (request: Option<LaunchRequest>)
        ensures
            if old(self).connection == PlusConnection::Loading {
                request is None && *final(self) == *old(self)
            } else {
                request == old(self).pending_launch && *final(self) == (ChatPanel {
                    pending_launch: None,
                    ..*old(self)
                })
            },
    {
        match &self.connection {
            PlusConnection::Loading => None,
            _ => self.pending_launch.take(),
        }
    }

    /// Chooses an agent.
    pub fn set_mode(&mut self, mode: ConnectionMode)
        ensures
            *final(self) == (ChatPanel { mode: Some(mode), ..*old(self) }),
    {
        self.mode = Some(mode);
    }

    /// Drops everything keyed to a session's transcript.
    fn reset_transcript_state(&mut self)
        ensures
            no_transcript(*final(self)),
            *final(self) == (ChatPanel {
                selected: final(self).selected,
                expanded: final(self).expanded,
                choices: final(self).choices,
                ..*old(self)
            }),
    {
        self.selected = None;
        self.expanded = Vec::new();
        self.choices = Vec::new();
    }

    /// Launches a request with the hosted agent, or says what comes first. A
    /// revoked connection falls back to the user's own agent. A launch starts
    /// afresh: the session before it ends.
    pub fn launch(&mut self, request: LaunchRequest) -> (step: ChatLaunch)
        ensures
            ({
                let was = *old(self);
                let now = *final(self);
                if !was.has_vault {
                    now == was && (step matches ChatLaunch::Refuse(m) && m@ == OPEN_A_VAULT@)
                } else {
                    match was.connection {
                        PlusConnection::Loading => step == ChatLaunch::Wait && now == (ChatPanel {
                            pending_launch: Some(request),
                            ..was
                        }),
                        PlusConnection::Disconnected => step == ChatLaunch::Connect && now == (
                        ChatPanel {
                            pending_launch: Some(request),
                            view: ChatView::Connect { busy: false, error: None },
                            ..was
                        }),
                        PlusConnection::Revoked(reason) => {
                            &&& step matches ChatLaunch::FallBack { message, request: r }
                            &&& message@ == reason@
                                + " Running this with your own agent instead."@
                            &&& r == request
                            &&& now == (ChatPanel { mode: Some(ConnectionMode::Byo), ..was })
                        },
                        PlusConnection::Connected { entitlement, .. } => if entitlement.exhausted {
                            now == was && (step matches ChatLaunch::Refuse(m) && m@
                                == ALLOWANCE_GONE@)
                        } else {
                            match entitlement.gateway {
                                None => now == was && (step matches ChatLaunch::Refuse(m) && m@
                                    == NO_AGENT_KEY@),
                                Some(gateway) => {
                                    &&& step matches ChatLaunch::Go {
                                        request: r,
                                        api_key,
                                        model,
                                        max_turns,
                                    }
                                    &&& r == request
                                    &&& api_key@ == gateway.api_key@
                                    &&& model@ == model_for(gateway, request.tier)
                                    &&& max_turns == entitlement.max_turns_per_session
                                    &&& no_transcript(now)
                                    &&& now.starting matches Some(s) && s@ == SETTING_UP@
                                    &&& now == (ChatPanel {
                                        session: None,
                                        starting: now.starting,
                                        view: ChatView::Chat,
                                        selected: now.selected,
                                        expanded: now.expanded,
                                        choices: now.choices,
                                        ..was
                                    })
                                },
                            }
                        },
                    }
                }
            }),
    {
        if !self.has_vault {
            return ChatLaunch::Refuse(OPEN_A_VAULT);
        }
        let plan: Result<(String, String, u32), ChatLaunch> = match &self.connection {
            PlusConnection::Loading => Err(ChatLaunch::Wait),
            PlusConnection::Disconnected => Err(ChatLaunch::Connect),
            PlusConnection::Revoked(reason) => {
                let mut out: Vec<char> = to_chars(reason.as_str());
                append_str(&mut out, " Running this with your own agent instead.");
                let message = from_chars(out.as_slice());
                self.mode = Some(ConnectionMode::Byo);
                return ChatLaunch::FallBack { message, request };
            },
            PlusConnection::Connected { entitlement, .. } => {
                if entitlement.exhausted {
                    Err(ChatLaunch::Refuse(ALLOWANCE_GONE))
                } else {
                    match &entitlement.gateway {
                        None => Err(ChatLaunch::Refuse(NO_AGENT_KEY)),
                        Some(gateway) => {
                            let model = match request.tier {
                                ModelTier::Default => gateway.default_model.clone(),
                                ModelTier::Fast => gateway.fast_model.clone(),
                            };
                            Ok((gateway.api_key.clone(), model, entitlement.max_turns_per_session))
                        },
                    }
                }
            },
        };
        match plan {
            Ok((api_key, model, max_turns)) => {
                self.session = None;
                self.reset_transcript_state();
                self.starting = Some(SETTING_UP);
                self.view = ChatView::Chat;
                ChatLaunch::Go { request, api_key, model, max_turns }
            },
            Err(ChatLaunch::Wait) => {
                self.pending_launch = Some(request);
                ChatLaunch::Wait
            },
            Err(ChatLaunch::Connect) => {
                self.pending_launch = Some(request);
                self.open_connect();
                ChatLaunch::Connect
            },
            Err(step) => step,
        }
    }

    /// Says that the agent's process is being started.
    pub fn process_starting(&mut self)
        ensures
            final(self).starting matches Some(s) && s@ == STARTING@,
            *final(self) == (ChatPanel { starting: final(self).starting, ..*old(self) }),
    {
        self.starting = Some(STARTING);
    }

    /// Takes in that a session could not start. The result is for the user.
    pub fn start_failed(&mut self, sign_in_failed: bool, error: &str) -> (message: String)
        ensures
            *final(self) == (ChatPanel { starting: None, ..*old(self) }),
            message@ == (if sign_in_failed {
                SIGN_IN_FAILED@
            } else {
                "Couldn't start the Thock Agent: "@ + error@
            }),
    {
        self.starting = None;
        if sign_in_failed {
            return own(SIGN_IN_FAILED);
        }
        let mut out: Vec<char> = to_chars("Couldn't start the Thock Agent: ");
        append_str(&mut out, error);
        from_chars(out.as_slice())
    }

    /// Takes in a session that started. The result is the kickoff to send.
    pub fn attach_session(&mut self, request: LaunchRequest, max_turns: u32) -> (kickoff: Option<
        String,
    >)
        ensures
            kickoff == request.kickoff,
            *final(self) == (ChatPanel {
                starting: None,
                session: Some(
                    ChatSession {
                        title: request.title,
                        turns: 0,
                        max_turns,
                        turn_failure: None,
                        last_sent: None,
                    },
                ),
                ..*old(self)
            }),
    {
        self.starting = None;
        self.session =
        Some(
            ChatSession {
                title: request.title,
                turns: 0,
                max_turns,
                turn_failure: None,
                last_sent: None,
            },
        );
        request.kickoff
    }

    /// Sends a text to the agent, or says why not.
    pub fn send_text(&mut self, text: &str, generating: bool) -> (step: SendStep)
        requires
            old(self).session matches Some(s) ==> s.turns < u32::MAX,
        ensures
            step@ == sending(old(self).session, old(self).connection, text@, generating),
            match step {
                SendStep::Send(t) => {
                    &&& final(self).session matches Some(s)
                    &&& old(self).session matches Some(was)
                    &&& s.turns == was.turns + 1
                    &&& s.turn_failure is None
                    &&& text_of(s.last_sent) == Some(t@)
                    &&& s == (ChatSession {
                        turns: s.turns,
                        turn_failure: s.turn_failure,
                        last_sent: s.last_sent,
                        ..was
                    })
                    &&& *final(self) == (ChatPanel { session: final(self).session, ..*old(self) })
                },
                _ => *final(self) == *old(self),
            },
    {
        let chars = to_chars(text);
        let body = trimmed(chars.as_slice());
        if body.len() == 0 {
            return SendStep::Nothing;
        }
        if let PlusConnection::Connected { entitlement, .. } = &self.connection {
            if entitlement.exhausted {
                return SendStep::Refuse(OUT_OF_ALLOWANCE);
            }
        }
        match self.session.take() {
            None => SendStep::Nothing,
            Some(mut session) => {
                if session.max_turns > 0 && session.turns >= session.max_turns {
                    self.session = Some(session);
                    return SendStep::Refuse(TOO_LONG);
                }
                if generating {
                    self.session = Some(session);
                    return SendStep::Refuse(STILL_WORKING);
                }
                let sent = from_chars(body);
                session.turns = session.turns + 1;
                session.turn_failure = None;
                session.last_sent = Some(sent.clone());
                self.session = Some(session);
                SendStep::Send(sent)
            },
        }
    }

    /// Takes in a turn that ended badly: one plain line, in a session.
    pub fn turn_failed(&mut self, event: TurnEvent)
        ensures
            match old(self).session {
                None => *final(self) == *old(self),
                Some(was) => {
                    &&& final(self).session matches Some(s)
                    &&& is_failure(s.turn_failure, event)
                    &&& s == (ChatSession { turn_failure: s.turn_failure, ..was })
                    &&& *final(self) == (ChatPanel { session: final(self).session, ..*old(self) })
                },
            },
    {
        match self.session.take() {
            None => {},
            Some(mut session) => {
                session.turn_failure =
                Some(
                    match event {
                        TurnEvent::Error => TurnFailure {
                            message: COULD_NOT_FINISH,
                            retryable: true,
                        },
                        TurnEvent::Refusal => TurnFailure {
                            message: DECIDED_NOT_TO,
                            retryable: false,
                        },
                    },
                );
                self.session = Some(session);
            },
        }
    }

    /// The message to send again, after a turn that could not finish.
    pub fn retry_turn(&self) -> (text: Option<String>)
        ensures
            text_of(text) == (match self.session {
                Some(s) => if s.turn_failure matches Some(f) && f.retryable {
                    text_of(s.last_sent)
                } else {
                    None
                },
                None => None,
            }),
    {
        match &self.session {
            Some(session) => match session.turn_failure {
                Some(failure) => if failure.retryable {
                    copy_text(&session.last_sent)
                } else {
                    None
                },
                None => None,
            },
            None => None,
        }
    }

    /// What the message box does with its text: with no session it is the
    /// kickoff of an ad-hoc chat.
    pub fn send_message(&self, text: &str) -> (step: MessageStep)
        ensures
            if trim(text@).len() == 0 {
                step is Nothing
            } else if self.session is Some {
                step is Send
            } else {
                step matches MessageStep::Launch(r) && r@ == (Request {
                    title: "Chat"@,
                    kickoff: Some(text@),
                    tier: ModelTier::Default,
                })
            },
    {
        let chars = to_chars(text);
        if trimmed(chars.as_slice()).len() == 0 {
            return MessageStep::Nothing;
        }
        if self.session.is_some() {
            return MessageStep::Send;
        }
        MessageStep::Launch(
            LaunchRequest {
                title: own("Chat"),
                kickoff: Some(own(text)),
                tier: ModelTier::Default,
            },
        )
    }

    /// Shows the connect flow.
    pub fn open_connect(&mut self)
        ensures
            *final(self) == (ChatPanel {
                view: ChatView::Connect { busy: false, error: None },
                ..*old(self)
            }),
    {
        self.view = ChatView::Connect { busy: false, error: None };
    }

    /// Leaves the connect flow; a launch that waited for it is dropped.
    pub fn cancel_connect(&mut self)
        ensures
            *final(self) == (ChatPanel {
                view: ChatView::Chat,
                pending_launch: None,
                ..*old(self)
            }),
    {
        self.view = ChatView::Chat;
        self.pending_launch = None;
    }

    /// Submits an invite code. The result is the code to connect with: in upper
    /// case, without the white space around it.
    pub fn submit_invite_code(&mut self, code: &str) -> (submitted: Option<String>)
        ensures
            ({
                let wanted = uppercase(trim(code@));
                match old(self).view {
                    ChatView::Connect { busy, .. } => if busy {
                        submitted is None && *final(self) == *old(self)
                    } else if wanted.len() == 0 {
                        &&& submitted is None
                        &&& final(self).view matches ChatView::Connect { busy: b, error }
                        &&& !b
                        &&& text_of(error) == Some(NO_CODE@)
                        &&& *final(self) == (ChatPanel { view: final(self).view, ..*old(self) })
                    } else {
                        &&& text_of(submitted) == Some(wanted)
                        &&& *final(self) == (ChatPanel {
                            view: ChatView::Connect { busy: true, error: None },
                            ..*old(self)
                        })
                    },
                    ChatView::Chat => submitted is None && *final(self) == *old(self),
                }
            }),
    {
        let chars = to_chars(code);
        let wanted = to_uppercase(from_chars(trimmed(chars.as_slice())).as_str());
        match &self.view {
            ChatView::Chat => None,
            ChatView::Connect { busy, .. } => {
                if *busy {
                    return None;
                }
                if to_chars(wanted.as_str()).len() == 0 {
                    self.view = ChatView::Connect { busy: false, error: Some(own(NO_CODE)) };
                    return None;
                }
                self.view = ChatView::Connect { busy: true, error: None };
                Some(wanted)
            },
        }
    }

    /// Takes in that connecting failed: with the service's own sentence where
    /// it refused.
    pub fn connect_failed(&mut self, refusal: Option<String>, error: &str)
        ensures
            match old(self).view {
                ChatView::Chat => *final(self) == *old(self),
                ChatView::Connect { .. } => {
                    &&& final(self).view matches ChatView::Connect { busy, error: shown }
                    &&& !busy
                    &&& text_of(shown) == Some(
                        match refusal {
                            Some(m) => m@,
                            None => "Couldn't reach Thock Plus: "@ + error@,
                        },
                    )
                    &&& *final(self) == (ChatPanel { view: final(self).view, ..*old(self) })
                },
            },
    {
        let message = match refusal {
            Some(m) => m,
            None => {
                let mut out: Vec<char> = to_chars("Couldn't reach Thock Plus: ");
                append_str(&mut out, error);
                from_chars(out.as_slice())
            },
        };
        match &self.view {
            ChatView::Chat => {},
            ChatView::Connect { .. } => {
                self.view = ChatView::Connect { busy: false, error: Some(message) };
            },
        }
    }

    /// Takes in a connection that was made. The result is the launch that
    /// waited for it.
    pub fn connected(&mut self, credential: String, entitlement: Entitlement) -> (request: Option<
        LaunchRequest,
    >)
        ensures
            request == old(self).pending_launch,
            *final(self) == (ChatPanel {
                connection: PlusConnection::Connected {
                    credential,
                    entitlement,
                    warned_low: false,
                },
                view: ChatView::Chat,
                mode: Some(ConnectionMode::Hosted),
                pending_launch: None,
                ..*old(self)
            }),
    {
        self.connection =
        PlusConnection::Connected { credential, entitlement, warned_low: false };
        self.view = ChatView::Chat;
        self.mode = Some(ConnectionMode::Hosted);
        self.pending_launch.take()
    }

    /// Disconnects: the session ends, and the credential is the result, to be
    /// handed back and deleted.
    pub fn disconnect(&mut self) -> (credential: Option<String>)
        ensures
            text_of(credential) == (match old(self).connection {
                PlusConnection::Connected { credential, .. } => Some(credential@),
                _ => None,
            }),
            no_transcript(*final(self)),
            *final(self) == (ChatPanel {
                session: None,
                connection: PlusConnection::Disconnected,
                selected: final(self).selected,
                expanded: final(self).expanded,
                choices: final(self).choices,
                ..*old(self)
            }),
    {
        let credential = match &self.connection {
            PlusConnection::Connected { credential, .. } => Some(credential.clone()),
            _ => None,
        };
        self.session = None;
        self.reset_transcript_state();
        self.connection = PlusConnection::Disconnected;
        credential
    }

    /// Shows or hides the allowance.
    pub fn toggle_usage(&mut self)
        ensures
            *final(self) == (ChatPanel { show_usage: !old(self).show_usage, ..*old(self) }),
    {
        self.show_usage = !self.show_usage;
    }

    /// Takes in whether the suggestion to reflect is due. The result is whether
    /// that changed.
    pub fn nudge_counted(&mut self, due: bool) -> (changed: bool)
        ensures
            changed == (old(self).memory_nudge_due != due),
            *final(self) == (ChatPanel { memory_nudge_due: due, ..*old(self) }),
    {
        let changed: bool = self.memory_nudge_due != due;
        self.memory_nudge_due = due;
        changed
    }

    /// Puts the suggestion away, and launches the ritual with it.
    pub fn reflect_now(&mut self, skill_path: &str) -> (request: LaunchRequest)
        ensures
            *final(self) == (ChatPanel { memory_nudge_due: false, ..*old(self) }),
            request@ == crate::agent_panel::skill_request(
                "Reflect"@,
                skill_path@,
                ModelTier::Fast,
            ),
    {
        self.memory_nudge_due = false;
        LaunchRequest::run_skill("Reflect", skill_path, ModelTier::Fast)
    }

    /// The highlighted option of a question.
    pub fn choice(&self, id: &str) -> (index: Option<usize>)
        ensures
            index == choice_of(self.choices@, id@),
    {
        let ghost all = self.choices@;
        let mut i: usize = self.choices.len();
        assert(all.take(all.len() as int) =~= all);
        while i > 0
            invariant
                i <= self.choices@.len(),
                all == self.choices@,
                choice_of(all, id@) == choice_of(all.take(i as int), id@),
            decreases i,
        {
            proof {
                assert(all.take(i as int).drop_last() =~= all.take(i - 1));
                assert(all.take(i as int).last() == all[i - 1]);
            }
            if same_str(self.choices[i - 1].0.as_str(), id) {
                return Some(self.choices[i - 1].1);
            }
            i = i - 1;
        }
        assert(all.take(0) =~= Seq::<(String, usize)>::empty());
        None
    }

    /// Highlights an option of a question.
    pub fn set_choice(&mut self, id: &str, index: usize)
        ensures
            forall|other: Seq<char>| #[trigger]
                choice_of(final(self).choices@, other) == (if other == id@ {
                    Some(index)
                } else {
                    choice_of(old(self).choices@, other)
                }),
            *final(self) == (ChatPanel { choices: final(self).choices, ..*old(self) }),
    {
        self.choices.push((own(id), index));
        assert(self.choices@.drop_last() =~= old(self).choices@);
        assert(self.choices@.last().0@ == id@);
    }

    /// Takes in a question of the agent: it arrives selected and ready to be
    /// answered from the keyboard.
    pub fn prepare_elicitation(
        &mut self,
        id: &str,
        entry_index: usize,
        shape: &ElicitationShape,
    ) -> (focus: AnswerFocus)
        ensures
            final(self).selected == Some(ItemKey::Entry(entry_index)),
            focus == (if shape@ is Text {
                AnswerFocus::AnswerBox
            } else {
                AnswerFocus::List
            }),
            forall|other: Seq<char>| #[trigger]
                choice_of(final(self).choices@, other) == (if other == id@ && shape@ is Choice {
                    Some(0)
                } else {
                    choice_of(old(self).choices@, other)
                }),
            *final(self) == (ChatPanel {
                selected: final(self).selected,
                choices: final(self).choices,
                ..*old(self)
            }),
    {
        self.selected = Some(ItemKey::Entry(entry_index));
        if let ElicitationShape::Choice { .. } = shape {
            self.set_choice(id, 0);
        }
        answer_focus(shape)
    }

    /// Opens or closes the detail of the selected activity. The selected call
    /// may be in the middle of a run, so the run's key counts.
    pub fn expand(&mut self, items: &[ChatItem], open: bool)
        ensures
            *final(self) == (ChatPanel { expanded: final(self).expanded, ..*old(self) }),
            ({
                let run = match key_of(old(self).selected) {
                    Some(Key::Activity(id)) => activity_with(items_view(items@), id),
                    _ => None,
                };
                forall|key: Seq<char>| #[trigger]
                    holds(final(self).expanded@, key) == (if run matches Some(r) && r.0 == key {
                        open
                    } else {
                        holds(old(self).expanded@, key)
                    })
            }),
    {
        let at = match &self.selected {
            Some(ItemKey::Activity(id)) => activity_at(items, id.as_str()),
            _ => None,
        };
        match at {
            None => {},
            Some(i) => {
                assert(items_view(items@)[i as int] == items@[i as int]@);
                if let ChatItem::Activity { key, .. } = &items[i] {
                    self.set_expanded(key.as_str(), open);
                }
            },
        }
    }

    /// Opens or closes the detail of an activity.
    fn set_expanded(&mut self, key: &str, open: bool)
        ensures
            *final(self) == (ChatPanel { expanded: final(self).expanded, ..*old(self) }),
            forall|k: Seq<char>| #[trigger]
                holds(final(self).expanded@, k) == (if k == key@ {
                    open
                } else {
                    holds(old(self).expanded@, k)
                }),
    {
        if open {
            if !list_holds(self.expanded.as_slice(), key) {
                let ghost before = self.expanded@;
                self.expanded.push(own(key));
                assert(strings(self.expanded@) =~= strings(before).push(key@));
                assert forall|k: Seq<char>| #[trigger] holds(self.expanded@, k) == (if k == key@ {
                    open
                } else {
                    holds(before, k)
                }) by {
                    crate::words::lemma_push_contains(strings(before), key@, k);
                }
            }
        } else {
            let kept = without_text(&self.expanded, key);
            self.expanded = kept;
        }
    }

    /// Selects an activity and turns its detail over.
    pub fn toggle_activity(&mut self, key: &str)
        ensures
            key_of(final(self).selected) == Some(Key::Activity(key@)),
            forall|k: Seq<char>| #[trigger]
                holds(final(self).expanded@, k) == (if k == key@ {
                    !holds(old(self).expanded@, key@)
                } else {
                    holds(old(self).expanded@, k)
                }),
            *final(self) == (ChatPanel {
                selected: final(self).selected,
                expanded: final(self).expanded,
                ..*old(self)
            }),
    {
        self.selected = Some(ItemKey::Activity(own(key)));
        let open: bool = list_holds(self.expanded.as_slice(), key);
        self.set_expanded(key, !open);
    }
}

/// What the key to confirm does.
#[derive(Debug, Clone, Copy, PartialEq, Eq, Structural)]
pub enum ConfirmStep {
    SubmitCode,
    /// Answer the question in the focused answer box, or the selected one.
    Answer,
    SendMessage,
    /// Open the note of the selected activity, else go to the message box.
    OpenSelected,
}

/// What the key to confirm does: a pending answer box takes it before the
/// message box.
pub fn confirm_step(
    connecting: bool,
    answer_box_focused: bool,
    message_box_focused: bool,
    question_selected: bool,
) -> (step: ConfirmStep)
    ensures
        step == (if connecting {
            ConfirmStep::SubmitCode
        } else if answer_box_focused || (!message_box_focused && question_selected) {
            ConfirmStep::Answer
        } else if message_box_focused {
            ConfirmStep::SendMessage
        } else {
            ConfirmStep::OpenSelected
        }),
{
    if connecting {
        ConfirmStep::SubmitCode
    } else if answer_box_focused || (!message_box_focused && question_selected) {
        ConfirmStep::Answer
    } else if message_box_focused {
        ConfirmStep::SendMessage
    } else {
        ConfirmStep::OpenSelected
    }
}

/// What the key to cancel does.
#[derive(Debug, Clone, Copy, PartialEq, Eq, Structural)]
pub enum CancelStep {
    LeaveConnect,
    StopTurn,
    FocusList,
    /// It is not for this panel.
    Propagate,
}

/// What the key to cancel does.
pub fn cancel_step(connecting: bool, generating: bool, message_box_focused: bool) -> (step:
    CancelStep)
    ensures
        step == (if connecting {
            CancelStep::LeaveConnect
        } else if generating {
            CancelStep::StopTurn
        } else if message_box_focused {
            CancelStep::FocusList
        } else {
            CancelStep::Propagate
        }),
{
    if connecting {
        CancelStep::LeaveConnect
    } else if generating {
        CancelStep::StopTurn
    } else if message_box_focused {
        CancelStep::FocusList
    } else {
        CancelStep::Propagate
    }
}

/// How a note on the allowance is coloured.
#[derive(Debug, Clone, Copy, PartialEq, Eq, Structural)]
pub enum UsageTone {
    Quiet,
    Warning,
    Error,
}

/// How the allowance is coloured: amber past the warning mark, red at zero.
pub fn usage_tone(entitlement: &Entitlement) -> (tone: UsageTone)
    ensures
        tone == (if entitlement.exhausted {
            UsageTone::Error
        } else if entitlement.running_low {
            UsageTone::Warning
        } else {
            UsageTone::Quiet
        }),
{
    if entitlement.exhausted {
        UsageTone::Error
    } else if entitlement.running_low {
        UsageTone::Warning
    } else {
        UsageTone::Quiet
    }
}

/// Whether the answer is streaming: the thread ends with a message that says
/// something.
pub open spec fn streaming_prose(entries: Seq<ThreadEntry>) -> bool {
    entries.len() > 0 && match entries.last() {
        ThreadEntry::AssistantMessage(chunks) => exists|i: int|
            0 <= i < chunks@.len() && #[trigger] chunks@[i] == Chunk::Message,
        _ => false,
    }
}

/// What the chat shows around its rows.
#[derive(Debug, Clone, PartialEq)]
pub struct ChatFrame {
    pub title: String,
    /// A button to stop the turn.
    pub stop: bool,
    /// How the button for the allowance is coloured.
    pub usage: Option<UsageTone>,
    /// One spinner for the whole turn, until prose streams.
    pub spinner: bool,
    /// The line of a turn that could not finish, and whether it can be tried
    /// again.
    pub failure: Option<(&'static str, bool)>,
}

impl ChatPanel {
    /// What the chat shows around its rows; `None` without a session.
    pub fn chat_frame(&self, entries: &[ThreadEntry], generating: bool) -> (frame: Option<
        ChatFrame,
    >)
        ensures
            match self.session {
                None => frame is None,
                Some(s) => {
                    &&& frame matches Some(f)
                    &&& f.title@ == s.title@
                    &&& f.stop == generating
                    &&& f.spinner == (generating && !streaming_prose(entries@))
                    &&& match entitlement_of(self.connection) {
                        Some(e) => f.usage == Some(
                            if e.exhausted {
                                UsageTone::Error
                            } else if e.running_low {
                                UsageTone::Warning
                            } else {
                                UsageTone::Quiet
                            },
                        ),
                        None => f.usage is None,
                    }
                    &&& match s.turn_failure {
                        Some(t) => f.failure matches Some(shown) && shown.0@ == t.message@
                            && shown.1 == (t.retryable && s.last_sent is Some),
                        None => f.failure is None,
                    }
                },
            },
    {
        match &self.session {
            None => None,
            Some(session) => {
                let n: usize = entries.len();
                let streaming: bool = if n == 0 {
                    false
                } else {
                    match &entries[n - 1] {
                        ThreadEntry::AssistantMessage(chunks) => says_something(chunks),
                        _ => false,
                    }
                };
                let usage = match &self.connection {
                    PlusConnection::Connected { entitlement, .. } => Some(usage_tone(entitlement)),
                    _ => None,
                };
                let failure = match session.turn_failure {
                    Some(f) => Some((f.message, f.retryable && session.last_sent.is_some())),
                    None => None,
                };
                Some(
                    ChatFrame {
                        title: session.title.clone(),
                        stop: generating,
                        usage,
                        spinner: generating && !streaming,
                        failure,
                    },
                )
            },
        }
    }
}

fn says_something(chunks: &Vec<Chunk>) -> (yes: bool)
    ensures
        yes == exists|i: int| 0 <= i < chunks@.len() && #[trigger] chunks@[i] == Chunk::Message,
{
    let mut i: usize = 0;
    while i < chunks.len()
        invariant
            i <= chunks@.len(),
            forall|k: int| 0 <= k < i ==> #[trigger] chunks@[k] != Chunk::Message,
        decreases chunks@.len() - i,
    {
        if chunks[i] == Chunk::Message {
            return true;
        }
        i = i + 1;
    }
    false
}

/// What the panel shows with no session: a title, a text, and its buttons with
/// their ids.
#[derive(Debug, Clone, PartialEq)]
pub struct ChatEmptyState {
    pub title: Option<&'static str>,
    pub text: String,
    pub buttons: Vec<(&'static str, &'static str)>,
    /// The icon is a warning.
    pub warning: bool,
}

/// What buttons hold.
pub open spec fn buttons_view(buttons: Seq<(&'static str, &'static str)>) -> Seq<
    (Seq<char>, Seq<char>),
> {
    buttons.map_values(|b: (&'static str, &'static str)| (b.0@, b.1@))
}

pub const CHECKING: &'static str = "Checking your Thock Plus connection…";

pub const READY: &'static str = "Type below to chat, or run a skill from the Routines panel. It works inside your notes and shows you every change as it goes.";

pub const OUT_OF_THE_BOX: &'static str = "An assistant that works out of the box: nothing to install, no keys to paste. Part of Thock Plus. Your own agent stays available in the Agent panel.";

/// What the panel shows with no session.
pub fn chat_empty_state(connection: &PlusConnection) -> (state: ChatEmptyState)
    ensures
        match *connection {
            PlusConnection::Loading => {
                &&& state.title is None
                &&& state.text@ == CHECKING@
                &&& state.buttons@.len() == 0
                &&& !state.warning
            },
            PlusConnection::Connected { .. } => {
                &&& state.title matches Some(t) && t@ == "Thock Agent is ready"@
                &&& state.text@ == READY@
                &&& buttons_view(state.buttons@) == seq![
                    ("thock-chat-start"@, "New Chat"@),
                    ("thock-chat-use-own"@, "Use My Own Agent Instead"@),
                ]
                &&& !state.warning
            },
            PlusConnection::Disconnected => {
                &&& state.title matches Some(t) && t@ == "Thock Agent"@
                &&& state.text@ == OUT_OF_THE_BOX@
                &&& buttons_view(state.buttons@) == seq![
                    ("thock-chat-connect"@, "Connect Thock Agent"@),
                ]
                &&& !state.warning
            },
            PlusConnection::Revoked(message) => {
                &&& state.title is None
                &&& state.text@ == message@
                &&& buttons_view(state.buttons@) == seq![
                    ("thock-chat-reconnect"@, "Connect Again"@),
                    ("thock-chat-fallback"@, "Use My Own Agent"@),
                ]
                &&& state.warning
            },
        },
{
    let mut buttons: Vec<(&'static str, &'static str)> = Vec::new();
    match connection {
        PlusConnection::Loading => ChatEmptyState {
            title: None,
            text: own(CHECKING),
            buttons,
            warning: false,
        },
        PlusConnection::Connected { .. } => {
            buttons.push(("thock-chat-start", "New Chat"));
            buttons.push(("thock-chat-use-own", "Use My Own Agent Instead"));
            assert(buttons_view(buttons@) =~= seq![
                ("thock-chat-start"@, "New Chat"@),
                ("thock-chat-use-own"@, "Use My Own Agent Instead"@),
            ]);
            ChatEmptyState {
                title: Some("Thock Agent is ready"),
                text: own(READY),
                buttons,
                warning: false,
            }
        },
        PlusConnection::Disconnected => {
            buttons.push(("thock-chat-connect", "Connect Thock Agent"));
            assert(buttons_view(buttons@) =~= seq![
                ("thock-chat-connect"@, "Connect Thock Agent"@),
            ]);
            ChatEmptyState {
                title: Some("Thock Agent"),
                text: own(OUT_OF_THE_BOX),
                buttons,
                warning: false,
            }
        },
        PlusConnection::Revoked(message) => {
            buttons.push(("thock-chat-reconnect", "Connect Again"));
            buttons.push(("thock-chat-fallback", "Use My Own Agent"));
            assert(buttons_view(buttons@) =~= seq![
                ("thock-chat-reconnect"@, "Connect Again"@),
                ("thock-chat-fallback"@, "Use My Own Agent"@),
            ]);
            ChatEmptyState { title: None, text: message.clone(), buttons, warning: true }
        },
    }
}

/// What the panel's body shows.
#[derive(Debug, Clone, PartialEq)]
pub enum ChatBody {
    Connect,
    /// A hint to open a vault.
    NoVault(&'static str),
    /// What the launch is doing.
    Starting(&'static str),
    Session,
    Empty,
}

/// What the panel shows below its body.
#[derive(Debug, Clone, Copy, PartialEq, Eq, Structural)]
pub struct ChatFooter {
    pub nudge: bool,
    pub composer: bool,
    pub usage: bool,
}

pub const CHAT_NO_VAULT: &'static str = "Open a Thock vault to chat with the Thock Agent.";

impl ChatPanel {
    /// What the panel's body shows.
    pub fn body(&self) -> (body: ChatBody)
        ensures
            match self.view {
                ChatView::Connect { .. } => body is Connect,
                ChatView::Chat => if !self.has_vault {
                    body matches ChatBody::NoVault(h) && h@ == CHAT_NO_VAULT@
                } else {
                    match self.starting {
                        Some(status) => body matches ChatBody::Starting(s) && s@ == status@,
                        None => if self.session is Some {
                            body is Session
                        } else {
                            body is Empty
                        },
                    }
                },
            },
    {
        match &self.view {
            ChatView::Connect { .. } => ChatBody::Connect,
            ChatView::Chat => {
                if !self.has_vault {
                    return ChatBody::NoVault(CHAT_NO_VAULT);
                }
                match self.starting {
                    Some(status) => ChatBody::Starting(status),
                    None => {
                        if self.session.is_some() {
                            ChatBody::Session
                        } else {
                            ChatBody::Empty
                        }
                    },
                }
            },
        }
    }

    /// What the panel shows below its body: the message box with a connection
    /// alone.
    pub fn footer(&self) -> (footer: ChatFooter)
        ensures
            ({
                let on = self.view == ChatView::Chat && self.has_vault && self.connection is Connected;
                footer == (ChatFooter {
                    nudge: on && self.memory_nudge_due,
                    composer: on,
                    usage: on && self.show_usage,
                })
            }),
    {
        let chatting: bool = match &self.view {
            ChatView::Chat => true,
            ChatView::Connect { .. } => false,
        };
        let connected: bool = match &self.connection {
            PlusConnection::Connected { .. } => true,
            _ => false,
        };
        let on: bool = chatting && self.has_vault && connected;
        ChatFooter {
            nudge: on && self.memory_nudge_due,
            composer: on,
            usage: on && self.show_usage,
        }
    }

    /// The hint below the message box, and whether sending is off.
    pub fn composer_hint(&self) -> (hint: (&'static str, bool))
        ensures
            ({
                let off = entitlement_of(self.connection) matches Some(e) && e.exhausted;
                hint.1 == off && hint.0@ == (if off {
                    "Out of allowance for this cycle"@
                } else {
                    "Enter to send · Shift-Enter for a new line"@
                })
            }),
    {
        let off: bool = match &self.connection {
            PlusConnection::Connected { entitlement, .. } => entitlement.exhausted,
            _ => false,
        };
        (
            if off {
                "Out of allowance for this cycle"
            } else {
                "Enter to send · Shift-Enter for a new line"
            },
            off,
        )
    }

    /// The label of the connect flow's button, and whether it is off.
    pub fn connect_button(&self) -> (button: Option<(&'static str, bool)>)
        ensures
            match self.view {
                ChatView::Chat => button is None,
                ChatView::Connect { busy, .. } => button matches Some(b) && b.1 == busy && b.0@ == (
                if busy {
                    "Connecting…"@
                } else {
                    "Connect"@
                }),
            },
    {
        match &self.view {
            ChatView::Chat => None,
            ChatView::Connect { busy, .. } => Some(
                (
                    if *busy {
                        "Connecting…"
                    } else {
                        "Connect"
                    },
                    *busy,
                ),
            ),
        }
    }
}

/// The warning of a low allowance comes once: after it, no further read of the
/// entitlement warns while the connection lasts.
pub proof fn low_allowance_warns_once(
    connection: PlusConnection,
    credential: String,
    first: Entitlement,
    second: Fetched,
)
    requires
        first.running_low,
    ensures
        has_warned(after_fetch(connection, credential, Fetched::Read(first))),
        second is Read || second is Unreachable ==> has_warned(
            after_fetch(
                after_fetch(connection, credential, Fetched::Read(first)),
                credential,
                second,
            ),
        ),
{
}

/// A chat never grows past its limit: what is sent leaves the number of turns
/// within it.
pub proof fn turns_stay_within_the_limit(
    session: ChatSession,
    connection: PlusConnection,
    text: Seq<char>,
    generating: bool,
)
    requires
        session.max_turns > 0,
        session.turns <= session.max_turns,
    ensures
        sending(Some(session), connection, text, generating) is Send ==> session.turns + 1
            <= session.max_turns,
{
}

/// What can fail while the panel goes on.
#[derive(Debug, Clone, Copy, PartialEq, Eq, Structural)]
pub enum ChatFailure {
    /// The credential of a new connection was not saved.
    Credential,
    /// The choice of agent was not saved.
    Choice,
    /// The service was not told of a disconnection.
    Disconnect,
}

/// What the panel says of a failure.
pub fn chat_failed(failure: ChatFailure, error: &str) -> (message: String)
    ensures
        message@ == (match failure {
            ChatFailure::Credential => NOT_SAVED@,
            ChatFailure::Choice => "Couldn't save the agent choice: "@ + error@,
            ChatFailure::Disconnect => "Disconnected here, but Thock Plus couldn't be told: "@
                + error@,
        }),
{
    let mut out: Vec<char> = match failure {
        ChatFailure::Credential => {
            return own(NOT_SAVED);
        },
        ChatFailure::Choice => to_chars("Couldn't save the agent choice: "),
        ChatFailure::Disconnect => to_chars(
            "Disconnected here, but Thock Plus couldn't be told: ",
        ),
    };
    append_str(&mut out, error);
    from_chars(out.as_slice())
}

} // verus!
