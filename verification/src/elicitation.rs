//! Questions that the agent asks in the chat: which of them can be answered in
//! place, and what an answer says.

use vstd::prelude::*;
use crate::hosted_agent::opt_str;
use crate::lines::strings;
use crate::text::{from_chars, to_chars, trim, trimmed};

verus! {

/// What a form asks for under a name.
#[derive(Debug, Clone, PartialEq)]
pub enum PropertySchema {
    /// A text, with the values that it may take: titled ones, or plain ones.
    Text { one_of: Option<Vec<(String, String)>>, enum_values: Option<Vec<String>> },
    Other,
}

/// How a question is asked.
#[derive(Debug, Clone, PartialEq)]
pub enum ElicitationMode {
    Url(String),
    /// A form, by the names of its fields.
    Form(Vec<(String, PropertySchema)>),
    Other,
}

/// A question of the agent.
#[derive(Debug, Clone, PartialEq)]
pub struct ElicitationRequest {
    pub message: String,
    pub mode: ElicitationMode,
}

/// The questions that can be answered in place. A form with one field covers
/// the real traffic; anything richer is answered yes or no.
#[derive(Debug, Clone, PartialEq)]
pub enum ElicitationShape {
    /// A field, and its options: the value and the title of each.
    Choice { property: String, options: Vec<(String, String)> },
    Text { property: String },
    Link { url: String },
    Confirm,
}

/// What a question asks.
pub enum Asked {
    Choice(Seq<char>, Seq<(Seq<char>, Seq<char>)>),
    Text(Seq<char>),
    Link(Seq<char>),
    Confirm,
}

/// What options are.
pub open spec fn pairs_of(options: Seq<(String, String)>) -> Seq<(Seq<char>, Seq<char>)> {
    options.map_values(|o: (String, String)| (o.0@, o.1@))
}

impl View for ElicitationShape {
    type V = Asked;

    open spec fn view(&self) -> Asked {
        match *self {
            ElicitationShape::Choice { property, options } => Asked::Choice(
                property@,
                pairs_of(options@),
            ),
            ElicitationShape::Text { property } => Asked::Text(property@),
            ElicitationShape::Link { url } => Asked::Link(url@),
            ElicitationShape::Confirm => Asked::Confirm,
        }
    }
}

/// What a question asks. A plain value is its own title.
pub open spec fn asked(request: ElicitationRequest) -> Asked {
    match request.mode {
        ElicitationMode::Url(url) => Asked::Link(url@),
        ElicitationMode::Form(fields) => if fields@.len() == 1 {
            match fields@[0].1 {
                PropertySchema::Text { one_of, enum_values } => match one_of {
                    Some(options) => Asked::Choice(fields@[0].0@, pairs_of(options@)),
                    None => match enum_values {
                        Some(values) => Asked::Choice(
                            fields@[0].0@,
                            strings(values@).map_values(|v: Seq<char>| (v, v)),
                        ),
                        None => Asked::Text(fields@[0].0@),
                    },
                },
                PropertySchema::Other => Asked::Confirm,
            }
        } else {
            Asked::Confirm
        },
        ElicitationMode::Other => Asked::Confirm,
    }
}

fn copy_options(options: &Vec<(String, String)>) -> (copy: Vec<(String, String)>)
    ensures
        pairs_of(copy@) == pairs_of(options@),
{
    let mut copy: Vec<(String, String)> = Vec::new();
    let mut i: usize = 0;
    while i < options.len()
        invariant
            i <= options@.len(),
            pairs_of(copy@) == pairs_of(options@).take(i as int),
        decreases options@.len() - i,
    {
        let ghost before = copy@;
        copy.push((options[i].0.clone(), options[i].1.clone()));
        proof {
            let all = pairs_of(options@);
            assert(pairs_of(copy@) =~= pairs_of(before).push(all[i as int]));
            assert(all.take(i + 1) =~= all.take(i as int).push(all[i as int]));
        }
        i = i + 1;
    }
    assert(pairs_of(options@).take(options@.len() as int) =~= pairs_of(options@));
    copy
}

fn plain_options(values: &Vec<String>) -> (options: Vec<(String, String)>)
    ensures
        pairs_of(options@) == strings(values@).map_values(|v: Seq<char>| (v, v)),
{
    let ghost all = strings(values@).map_values(|v: Seq<char>| (v, v));
    let mut options: Vec<(String, String)> = Vec::new();
    let mut i: usize = 0;
    while i < values.len()
        invariant
            i <= values@.len(),
            all == strings(values@).map_values(|v: Seq<char>| (v, v)),
            pairs_of(options@) == all.take(i as int),
        decreases values@.len() - i,
    {
        let ghost before = options@;
        options.push((values[i].clone(), values[i].clone()));
        proof {
            assert(pairs_of(options@) =~= pairs_of(before).push(all[i as int]));
            assert(all.take(i + 1) =~= all.take(i as int).push(all[i as int]));
        }
        i = i + 1;
    }
    assert(all.take(all.len() as int) =~= all);
    options
}

/// What a question asks.
pub fn elicitation_shape(request: &ElicitationRequest) -> (shape: ElicitationShape)
    ensures
        shape@ == asked(*request),
{
    match &request.mode {
        ElicitationMode::Url(url) => ElicitationShape::Link { url: url.clone() },
        ElicitationMode::Form(fields) => {
            if fields.len() != 1 {
                return ElicitationShape::Confirm;
            }
            let property = fields[0].0.clone();
            match &fields[0].1 {
                PropertySchema::Text { one_of, enum_values } => match one_of {
                    Some(options) => ElicitationShape::Choice {
                        property,
                        options: copy_options(options),
                    },
                    None => match enum_values {
                        Some(values) => ElicitationShape::Choice {
                            property,
                            options: plain_options(values),
                        },
                        None => ElicitationShape::Text { property },
                    },
                },
                PropertySchema::Other => ElicitationShape::Confirm,
            }
        },
        ElicitationMode::Other => ElicitationShape::Confirm,
    }
}

/// How many options a question has.
pub open spec fn option_count(a: Asked) -> int {
    match a {
        Asked::Choice(_, options) => options.len() as int,
        _ => 0,
    }
}

/// The option that is highlighted after a step among `n` options; `None` where
/// there is none to highlight.
pub open spec fn stepped(current: Option<usize>, n: int, forward: bool) -> Option<int> {
    let at = match current {
        Some(i) => i as int,
        None => 0,
    };
    if n == 0 {
        None
    } else if forward {
        Some(
            if at + 1 < n {
                at + 1
            } else {
                n - 1
            },
        )
    } else {
        Some(
            if at > 0 {
                at - 1
            } else {
                0
            },
        )
    }
}

/// The option that is highlighted after a step.
pub fn cycle_choice(current: Option<usize>, shape: &ElicitationShape, forward: bool) -> (next:
    Option<usize>)
    ensures
        match next {
            Some(i) => stepped(current, option_count(shape@), forward) == Some(i as int),
            None => stepped(current, option_count(shape@), forward) is None,
        },
{
    let n: usize = match shape {
        ElicitationShape::Choice { options, .. } => {
            assert(pairs_of(options@).len() == options@.len());
            options.len()
        },
        _ => 0,
    };
    if n == 0 {
        return None;
    }
    let at: usize = match current {
        Some(i) => i,
        None => 0,
    };
    if forward {
        if at < n - 1 {
            Some(at + 1)
        } else {
            Some(n - 1)
        }
    } else if at > 0 {
        Some(at - 1)
    } else {
        Some(0)
    }
}

/// Stepping forward and back stays among the options.
pub proof fn steps_stay_among_the_options(current: Option<usize>, n: int, forward: bool)
    requires
        n > 0,
        current matches Some(i) ==> i < n,
    ensures
        stepped(current, n, forward) matches Some(i) && 0 <= i < n,
{
}

/// What answering a question does.
#[derive(Debug, Clone, PartialEq)]
pub enum Answer {
    Nothing,
    /// Say yes, with the value of a field where there is one.
    Accept(Option<(String, String)>),
    OpenLink(String),
}

/// What an answer says.
pub enum Said {
    Nothing,
    Accept(Option<(Seq<char>, Seq<char>)>),
    OpenLink(Seq<char>),
}

impl View for Answer {
    type V = Said;

    open spec fn view(&self) -> Said {
        match *self {
            Answer::Nothing => Said::Nothing,
            Answer::Accept(field) => Said::Accept(
                match field {
                    Some(f) => Some((f.0@, f.1@)),
                    None => None,
                },
            ),
            Answer::OpenLink(url) => Said::OpenLink(url@),
        }
    }
}

/// What answering a question says: a clicked option wins over the highlighted
/// one, and a text counts without the white space around it. A question that
/// was answered, an option that is not there and an empty text say nothing.
pub open spec fn said(
    a: Asked,
    pending: bool,
    clicked: Option<usize>,
    highlighted: Option<usize>,
    text: Option<Seq<char>>,
) -> Said {
    if !pending {
        Said::Nothing
    } else {
        match a {
            Asked::Choice(property, options) => {
                let at = match clicked {
                    Some(i) => i as int,
                    None => match highlighted {
                        Some(i) => i as int,
                        None => 0,
                    },
                };
                if at < options.len() {
                    Said::Accept(Some((property, options[at].0)))
                } else {
                    Said::Nothing
                }
            },
            Asked::Text(property) => match text {
                Some(t) => if trim(t).len() > 0 {
                    Said::Accept(Some((property, trim(t))))
                } else {
                    Said::Nothing
                },
                None => Said::Nothing,
            },
            Asked::Link(url) => Said::OpenLink(url),
            Asked::Confirm => Said::Accept(None),
        }
    }
}

/// What answering a question says. `text` is what stands in its answer box.
pub fn answer_elicitation(
    shape: &ElicitationShape,
    pending: bool,
    clicked: Option<usize>,
    highlighted: Option<usize>,
    text: Option<&str>,
) -> (answer: Answer)
    ensures
        answer@ == said(shape@, pending, clicked, highlighted, opt_str(text)),
{
    if !pending {
        return Answer::Nothing;
    }
    match shape {
        ElicitationShape::Choice { property, options } => {
            let at: usize = match clicked {
                Some(i) => i,
                None => match highlighted {
                    Some(i) => i,
                    None => 0,
                },
            };
            if at < options.len() {
                assert(pairs_of(options@)[at as int].0 == options@[at as int].0@);
                Answer::Accept(Some((property.clone(), options[at].0.clone())))
            } else {
                Answer::Nothing
            }
        },
        ElicitationShape::Text { property } => match text {
            Some(t) => {
                let chars = to_chars(t);
                let body = trimmed(chars.as_slice());
                if body.len() > 0 {
                    Answer::Accept(Some((property.clone(), from_chars(body))))
                } else {
                    Answer::Nothing
                }
            },
            None => Answer::Nothing,
        },
        ElicitationShape::Link { url } => Answer::OpenLink(url.clone()),
        ElicitationShape::Confirm => Answer::Accept(None),
    }
}

/// An answer to a choice is one of the values that the agent offered.
pub proof fn choices_are_offered(
    property: Seq<char>,
    options: Seq<(Seq<char>, Seq<char>)>,
    clicked: Option<usize>,
    highlighted: Option<usize>,
    text: Option<Seq<char>>,
)
    ensures
        match said(Asked::Choice(property, options), true, clicked, highlighted, text) {
            Said::Accept(field) => field matches Some(f) && f.0 == property && exists|i: int|
                0 <= i < options.len() && (#[trigger] options[i]).0 == f.1,
            Said::Nothing => true,
            Said::OpenLink(_) => false,
        },
{
    let at = match clicked {
        Some(i) => i as int,
        None => match highlighted {
            Some(i) => i as int,
            None => 0,
        },
    };
    if at < options.len() {
        assert(options[at].0 == options[at].0);
    }
}

/// What takes the keyboard when a question arrives.
#[derive(Debug, Clone, Copy, PartialEq, Eq, Structural)]
pub enum AnswerFocus {
    /// An answer box of its own.
    AnswerBox,
    /// The list, where keys choose and answer.
    List,
}

/// What takes the keyboard when a question arrives.
pub fn answer_focus(shape: &ElicitationShape) -> (focus: AnswerFocus)
    ensures
        focus == (if shape@ is Text {
            AnswerFocus::AnswerBox
        } else {
            AnswerFocus::List
        }),
{
    match shape {
        ElicitationShape::Text { .. } => AnswerFocus::AnswerBox,
        _ => AnswerFocus::List,
    }
}

/// What a question shows below its message.
#[derive(Debug, Clone, PartialEq)]
pub enum QuestionBody {
    /// Nothing: it was answered, and settles into a quiet line.
    Settled,
    /// The titles of the options, and which is highlighted.
    Options { titles: Vec<(String, bool)>, hint: &'static str },
    /// An answer box, where it is there.
    AnswerBox { hint: Option<&'static str> },
    /// A button that opens a link.
    Link { url: String },
    /// A button for yes and one for no.
    Confirm,
}

/// The titles of options, with the highlighted one marked.
pub open spec fn marked(options: Seq<(Seq<char>, Seq<char>)>, chosen: int) -> Seq<
    (Seq<char>, bool),
> {
    Seq::new(options.len(), |i: int| (options[i].1, i == chosen))
}

/// What titles are.
pub open spec fn titles_view(titles: Seq<(String, bool)>) -> Seq<(Seq<char>, bool)> {
    titles.map_values(|t: (String, bool)| (t.0@, t.1))
}

pub const CHOOSE_HINT: &'static str = "←/→ to choose · Enter to answer";

pub const ANSWER_HINT: &'static str = "Enter to answer";

/// What a question shows below its message.
pub fn question_body(
    shape: ElicitationShape,
    pending: bool,
    highlighted: Option<usize>,
    has_answer_box: bool,
) -> (body: QuestionBody)
    ensures
        if !pending {
            body is Settled
        } else {
            match shape@ {
                Asked::Choice(_, options) => body matches QuestionBody::Options { titles, hint }
                    && titles_view(titles@) == marked(
                    options,
                    match highlighted {
                        Some(i) => i as int,
                        None => 0,
                    },
                ) && hint@ == CHOOSE_HINT@,
                Asked::Text(_) => body matches QuestionBody::AnswerBox { hint } && (
                if has_answer_box {
                    hint matches Some(h) && h@ == ANSWER_HINT@
                } else {
                    hint is None
                }),
                Asked::Link(url) => body matches QuestionBody::Link { url: u } && u@ == url,
                Asked::Confirm => body is Confirm,
            }
        },
{
    if !pending {
        return QuestionBody::Settled;
    }
    match shape {
        ElicitationShape::Choice { options, .. } => {
            let chosen: usize = match highlighted {
                Some(i) => i,
                None => 0,
            };
            let ghost wanted = marked(pairs_of(options@), chosen as int);
            let mut titles: Vec<(String, bool)> = Vec::new();
            let mut i: usize = 0;
            while i < options.len()
                invariant
                    i <= options@.len(),
                    wanted == marked(pairs_of(options@), chosen as int),
                    titles_view(titles@) == wanted.take(i as int),
                decreases options@.len() - i,
            {
                let ghost before = titles@;
                titles.push((options[i].1.clone(), i == chosen));
                proof {
                    assert(pairs_of(options@)[i as int].1 == options@[i as int].1@);
                    assert(titles_view(titles@) =~= titles_view(before).push(wanted[i as int]));
                    assert(wanted.take(i + 1) =~= wanted.take(i as int).push(wanted[i as int]));
                }
                i = i + 1;
            }
            assert(wanted.take(wanted.len() as int) =~= wanted);
            QuestionBody::Options { titles, hint: CHOOSE_HINT }
        },
        ElicitationShape::Text { .. } => {
            if has_answer_box {
                QuestionBody::AnswerBox { hint: Some(ANSWER_HINT) }
            } else {
                QuestionBody::AnswerBox { hint: None }
            }
        },
        ElicitationShape::Link { url } => QuestionBody::Link { url },
        ElicitationShape::Confirm => QuestionBody::Confirm,
    }
}

/// What an option of a permission request means.
#[derive(Debug, Clone, Copy, PartialEq, Eq, Structural)]
pub enum PermissionKind {
    AllowAlways,
    AllowOnce,
    RejectAlways,
    RejectOnce,
}

/// The first position of a kind.
pub open spec fn first_of(kinds: Seq<PermissionKind>, kind: PermissionKind) -> Option<int>
    decreases kinds.len(),
{
    if kinds.len() == 0 {
        None
    } else {
        match first_of(kinds.drop_last(), kind) {
            Some(at) => Some(at),
            None => if kinds.last() == kind {
                Some(kinds.len() - 1)
            } else {
                None
            },
        }
    }
}

fn first_kind(kinds: &[PermissionKind], kind: PermissionKind) -> (at: Option<usize>)
    ensures
        match at {
            Some(i) => first_of(kinds@, kind) == Some(i as int) && i < kinds@.len() && kinds@[i as int]
                == kind,
            None => first_of(kinds@, kind) is None,
        },
{
    let mut found: Option<usize> = None;
    let mut i: usize = 0;
    assert(kinds@.take(0) =~= Seq::<PermissionKind>::empty());
    while i < kinds.len()
        invariant
            i <= kinds@.len(),
            match found {
                Some(k) => first_of(kinds@.take(i as int), kind) == Some(k as int) && k
                    < kinds@.len() && kinds@[k as int] == kind,
                None => first_of(kinds@.take(i as int), kind) is None,
            },
        decreases kinds@.len() - i,
    {
        proof {
            assert(kinds@.take(i + 1).drop_last() =~= kinds@.take(i as int));
            assert(kinds@.take(i + 1).last() == kinds@[i as int]);
        }
        if found.is_none() && kinds[i] == kind {
            found = Some(i);
        }
        i = i + 1;
    }
    assert(kinds@.take(kinds@.len() as int) =~= kinds@);
    found
}

/// The option that answers a permission request: there are no approval
/// prompts, so it is the broadest that allows.
pub fn choose_permission(kinds: &[PermissionKind]) -> (at: Option<usize>)
    ensures
        match at {
            Some(i) => i < kinds@.len() && Some(i as int) == (if first_of(
                kinds@,
                PermissionKind::AllowAlways,
            ) is Some {
                first_of(kinds@, PermissionKind::AllowAlways)
            } else {
                first_of(kinds@, PermissionKind::AllowOnce)
            }) && (kinds@[i as int] == PermissionKind::AllowAlways || kinds@[i as int]
                == PermissionKind::AllowOnce),
            None => first_of(kinds@, PermissionKind::AllowAlways) is None && first_of(
                kinds@,
                PermissionKind::AllowOnce,
            ) is None,
        },
{
    match first_kind(kinds, PermissionKind::AllowAlways) {
        Some(i) => Some(i),
        None => first_kind(kinds, PermissionKind::AllowOnce),
    }
}

} // verus!
