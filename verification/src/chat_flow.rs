//! What the chat does with its thread's events, and with keys on its rows.

use vstd::prelude::*;
use crate::chat_panel::{
    choice_of, is_failure, ChatPanel, ChatSession, ChatView, PlusConnection, TurnEvent,
};
use crate::elicitation::{cycle_choice, option_count, stepped, ElicitationShape};
use crate::inbox::text_of;
use crate::lines::strings;
use crate::text::own;
use crate::transcript::{
    activity_at, activity_with, items_view, key_of, opened_path, path_to_open, plan_line,
    run_calls, ChatItem, Chunk, ItemKey, Key, ThreadEntry,
};
use crate::words::{holds, list_holds};

verus! {

/// An event of the agent's thread.
#[derive(Debug, Clone, Copy, PartialEq, Eq, Structural)]
pub enum ThreadEvent {
    /// A tool call waits for permission.
    ToolAuthorizationRequested,
    NewEntry,
    EntryUpdated,
    /// The agent asks something.
    ElicitationRequested,
    /// The turn ended.
    Stopped,
    Error,
    /// The session could not be loaded.
    LoadError,
    Refusal,
    Other,
}

/// What an event asks for.
#[derive(Debug, Clone, Copy, PartialEq, Eq, Structural)]
pub enum ThreadStep {
    Nothing,
    /// Give the tool call its permission.
    Authorize,
    /// Show the entries anew, and scroll to the last one while a turn runs.
    ShowEntries { scroll: bool },
    /// Take in the question.
    PrepareQuestion,
    /// Read the allowance again.
    RefreshAllowance,
}

/// What an event asks for.
pub open spec fn step_for(event: ThreadEvent, generating: bool) -> ThreadStep {
    match event {
        ThreadEvent::ToolAuthorizationRequested => ThreadStep::Authorize,
        ThreadEvent::NewEntry => ThreadStep::ShowEntries { scroll: generating },
        ThreadEvent::EntryUpdated => ThreadStep::ShowEntries { scroll: generating },
        ThreadEvent::ElicitationRequested => ThreadStep::PrepareQuestion,
        ThreadEvent::Stopped => ThreadStep::RefreshAllowance,
        _ => ThreadStep::Nothing,
    }
}

/// How an event ends the turn badly, if it does.
pub open spec fn failure_in(event: ThreadEvent) -> Option<TurnEvent> {
    match event {
        ThreadEvent::Error => Some(TurnEvent::Error),
        ThreadEvent::LoadError => Some(TurnEvent::Error),
        ThreadEvent::Refusal => Some(TurnEvent::Refusal),
        _ => None,
    }
}

/// The question that the cursor is on, if it waits for an answer.
pub open spec fn question_under(
    selected: Option<Key>,
    entries: Seq<ThreadEntry>,
    pending: Seq<Seq<char>>,
) -> Option<Seq<char>> {
    match selected {
        Some(Key::Entry(at)) => if 0 <= at < entries.len() {
            match entries[at] {
                ThreadEntry::Elicitation(id) => if pending.contains(id@) {
                    Some(id@)
                } else {
                    None
                },
                _ => None,
            }
        } else {
            None
        },
        _ => None,
    }
}

/// What a row of an entry shows.
#[derive(Debug, Clone, PartialEq)]
pub enum EntryBody {
    UserMessage,
    /// The chunks of an answer that say something, by their places.
    Prose(Vec<usize>),
    /// A question, by its id.
    Question(String),
    Line(String),
    /// Tool calls are shown in groups, and a stale place shows nothing.
    Nothing,
}

/// What a row shows.
pub enum Shown {
    UserMessage,
    Prose(Seq<int>),
    Question(Seq<char>),
    Line(Seq<char>),
    Nothing,
}

/// The places, as integers.
pub open spec fn ints(places: Seq<usize>) -> Seq<int> {
    Seq::new(places.len(), |i: int| places[i] as int)
}

impl View for EntryBody {
    type V = Shown;

    open spec fn view(&self) -> Shown {
        match *self {
            EntryBody::UserMessage => Shown::UserMessage,
            EntryBody::Prose(places) => Shown::Prose(ints(places@)),
            EntryBody::Question(id) => Shown::Question(id@),
            EntryBody::Line(line) => Shown::Line(line@),
            EntryBody::Nothing => Shown::Nothing,
        }
    }
}

/// The places of the chunks that say something.
pub open spec fn said_at(chunks: Seq<Chunk>) -> Seq<int>
    decreases chunks.len(),
{
    if chunks.len() == 0 {
        Seq::empty()
    } else {
        let prior = said_at(chunks.drop_last());
        if chunks.last() == Chunk::Message {
            prior.push(chunks.len() - 1)
        } else {
            prior
        }
    }
}

pub const TIDIED_UP: &'static str = "Tidied up the conversation to keep going.";

/// What a row of an entry shows.
pub fn entry_body(entry: Option<&ThreadEntry>) -> (body: EntryBody)
    ensures
        match entry {
            Some(ThreadEntry::UserMessage) => body@ == Shown::UserMessage,
            Some(ThreadEntry::AssistantMessage(chunks)) => body@ == Shown::Prose(said_at(chunks@)),
            Some(ThreadEntry::Elicitation(id)) => body@ == Shown::Question(id@),
            Some(ThreadEntry::CompletedPlan(steps)) => body@ == Shown::Line(
                "Finished a plan of "@ + crate::format::decimal(*steps as nat) + " step"@ + (
                if *steps == 1 {
                    ""@
                } else {
                    "s"@
                }) + "."@,
            ),
            Some(ThreadEntry::ContextCompaction) => body@ == Shown::Line(TIDIED_UP@),
            Some(ThreadEntry::ToolCall(_)) => body@ == Shown::Nothing,
            None => body@ == Shown::Nothing,
        },
{
    match entry {
        Some(ThreadEntry::UserMessage) => EntryBody::UserMessage,
        Some(ThreadEntry::AssistantMessage(chunks)) => EntryBody::Prose(
            said_places(chunks.as_slice()),
        ),
        Some(ThreadEntry::Elicitation(id)) => EntryBody::Question(own(id.as_str())),
        Some(ThreadEntry::CompletedPlan(steps)) => EntryBody::Line(plan_line(*steps)),
        Some(ThreadEntry::ContextCompaction) => EntryBody::Line(own(TIDIED_UP)),
        Some(ThreadEntry::ToolCall(_)) => EntryBody::Nothing,
        None => EntryBody::Nothing,
    }
}

/// The places of the chunks that say something.
fn said_places(chunks: &[Chunk]) -> (places: Vec<usize>)
    ensures
        ints(places@) == said_at(chunks@),
{
    let mut places: Vec<usize> = Vec::new();
    let mut i: usize = 0;
    assert(chunks@.take(0) =~= Seq::<Chunk>::empty());
    assert(ints(places@) =~= said_at(chunks@.take(0)));
    while i < chunks.len()
        invariant
            i <= chunks@.len(),
            ints(places@) == said_at(chunks@.take(i as int)),
        decreases chunks@.len() - i,
    {
        assert(chunks@.take(i + 1).drop_last() =~= chunks@.take(i as int));
        if chunks[i] == Chunk::Message {
            let ghost before = places@;
            places.push(i);
            assert(ints(places@) =~= ints(before).push(i as int));
        }
        i = i + 1;
    }
    assert(chunks@.take(chunks@.len() as int) =~= chunks@);
    places
}

/// What takes the keys when the panel is focused.
#[derive(Debug, Clone, Copy, PartialEq, Eq, Structural)]
pub enum FocusTarget {
    InviteCode,
    MessageBox,
    List,
}

impl ChatPanel {
    /// Takes in an event of the thread. Failures get one plain line and no raw
    /// detail.
    pub fn handle_thread_event(&mut self, event: ThreadEvent, generating: bool) -> (step:
        ThreadStep)
        ensures
            step == step_for(event, generating),
            match (failure_in(event), old(self).session) {
                (Some(failure), Some(was)) => {
                    &&& final(self).session matches Some(s)
                    &&& is_failure(s.turn_failure, failure)
                    &&& s == (ChatSession { turn_failure: s.turn_failure, ..was })
                    &&& *final(self) == (ChatPanel { session: final(self).session, ..*old(self) })
                },
                _ => *final(self) == *old(self),
            },
    {
        match event {
            ThreadEvent::ToolAuthorizationRequested => ThreadStep::Authorize,
            ThreadEvent::NewEntry | ThreadEvent::EntryUpdated => ThreadStep::ShowEntries {
                scroll: generating,
            },
            ThreadEvent::ElicitationRequested => ThreadStep::PrepareQuestion,
            ThreadEvent::Stopped => ThreadStep::RefreshAllowance,
            ThreadEvent::Error | ThreadEvent::LoadError => {
                self.turn_failed(TurnEvent::Error);
                ThreadStep::Nothing
            },
            ThreadEvent::Refusal => {
                self.turn_failed(TurnEvent::Refusal);
                ThreadStep::Nothing
            },
            ThreadEvent::Other => ThreadStep::Nothing,
        }
    }

    /// The question that the cursor is on, if it waits for an answer.
    pub fn selected_pending_elicitation(&self, entries: &[ThreadEntry], pending: &[String]) -> (id:
        Option<String>)
        ensures
            text_of(id) == question_under(key_of(self.selected), entries@, strings(pending@)),
    {
        match &self.selected {
            Some(ItemKey::Entry(at)) => {
                if *at >= entries.len() {
                    return None;
                }
                match &entries[*at] {
                    ThreadEntry::Elicitation(id) => {
                        if list_holds(pending, id.as_str()) {
                            Some(own(id.as_str()))
                        } else {
                            None
                        }
                    },
                    _ => None,
                }
            },
            _ => None,
        }
    }

    /// The question that the key to confirm answers: that of the focused answer
    /// box, and, away from the message box, the selected one.
    pub fn pending_elicitation_for_confirm(
        &self,
        answer_box: Option<&str>,
        message_box_focused: bool,
        entries: &[ThreadEntry],
        pending: &[String],
    ) -> (id: Option<String>)
        ensures
            text_of(id) == (match answer_box {
                Some(focused) => Some(focused@),
                None => if message_box_focused {
                    None
                } else {
                    question_under(key_of(self.selected), entries@, strings(pending@))
                },
            }),
    {
        match answer_box {
            Some(focused) => Some(own(focused)),
            None => {
                if message_box_focused {
                    None
                } else {
                    self.selected_pending_elicitation(entries, pending)
                }
            },
        }
    }

    /// Steps the highlighted option of a question.
    pub fn cycle_elicitation_choice(&mut self, id: &str, shape: &ElicitationShape, forward: bool)
        ensures
            forall|other: Seq<char>| #[trigger]
                choice_of(final(self).choices@, other) == (match stepped(
                    choice_of(old(self).choices@, id@),
                    option_count(shape@),
                    forward,
                ) {
                    Some(next) => if other == id@ {
                        Some(next as usize)
                    } else {
                        choice_of(old(self).choices@, other)
                    },
                    None => choice_of(old(self).choices@, other),
                }),
            *final(self) == (ChatPanel { choices: final(self).choices, ..*old(self) }),
    {
        let current = self.choice(id);
        match cycle_choice(current, shape, forward) {
            Some(next) => {
                self.set_choice(id, next);
            },
            None => {},
        }
    }

    /// What the keys to the right and to the left do: on a question they step
    /// its highlighted option, on an activity they open or close its detail.
    pub fn expand_or_cycle(
        &mut self,
        items: &[ChatItem],
        question: Option<(&str, &ElicitationShape)>,
        forward: bool,
    )
        ensures
            *final(self) == (ChatPanel {
                choices: final(self).choices,
                expanded: final(self).expanded,
                ..*old(self)
            }),
            match question {
                Some((id, shape)) => {
                    &&& final(self).expanded == old(self).expanded
                    &&& forall|other: Seq<char>| #[trigger]
                        choice_of(final(self).choices@, other) == (match stepped(
                            choice_of(old(self).choices@, id@),
                            option_count(shape@),
                            forward,
                        ) {
                            Some(next) => if other == id@ {
                                Some(next as usize)
                            } else {
                                choice_of(old(self).choices@, other)
                            },
                            None => choice_of(old(self).choices@, other),
                        })
                },
                None => {
                    let run = match key_of(old(self).selected) {
                        Some(Key::Activity(id)) => activity_with(items_view(items@), id),
                        _ => None,
                    };
                    &&& final(self).choices == old(self).choices
                    &&& forall|key: Seq<char>| #[trigger]
                        holds(final(self).expanded@, key) == (if run matches Some(r) && r.0 == key {
                            forward
                        } else {
                            holds(old(self).expanded@, key)
                        })
                },
            },
    {
        match question {
            Some((id, shape)) => {
                self.cycle_elicitation_choice(id, shape, forward);
            },
            None => {
                self.expand(items, forward);
            },
        }
    }

    /// The note that opening the selected activity shows: the first that was
    /// written, else the first that was touched.
    pub fn open_selected_entry(&self, items: &[ChatItem], entries: &[ThreadEntry]) -> (path: Option<
        String,
    >)
        ensures
            text_of(path) == (match (self.session, key_of(self.selected)) {
                (Some(_), Some(Key::Activity(id))) => match activity_with(items_view(items@), id) {
                    Some(run) => opened_path(run_calls(entries@, run.1)),
                    None => None,
                },
                _ => None,
            }),
    {
        if self.session.is_none() {
            return None;
        }
        let at = match &self.selected {
            Some(ItemKey::Activity(id)) => activity_at(items, id.as_str()),
            _ => None,
        };
        match at {
            None => None,
            Some(i) => {
                assert(items_view(items@)[i as int] == items@[i as int]@);
                match &items[i] {
                    ChatItem::Activity { calls, .. } => path_to_open(entries, calls.as_slice()),
                    ChatItem::Entry(_) => None,
                }
            },
        }
    }

    /// Puts the suggestion to reflect away.
    pub fn dismiss_memory_nudge(&mut self)
        ensures
            *final(self) == (ChatPanel { memory_nudge_due: false, ..*old(self) }),
    {
        self.memory_nudge_due = false;
    }

    /// What takes the keys when the panel is focused.
    pub fn focus_target(&self) -> (target: FocusTarget)
        ensures
            target == (if self.view is Connect {
                FocusTarget::InviteCode
            } else if self.connection is Connected {
                FocusTarget::MessageBox
            } else {
                FocusTarget::List
            }),
    {
        match (&self.view, &self.connection) {
            (ChatView::Connect { .. }, _) => FocusTarget::InviteCode,
            (ChatView::Chat, PlusConnection::Connected { .. }) => FocusTarget::MessageBox,
            (ChatView::Chat, _) => FocusTarget::List,
        }
    }
}

} // verus!
