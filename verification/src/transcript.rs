//! The chat as the user sees it. Entries of the thread take a row each, except
//! that consecutive tool calls collapse into one activity line. The rows are
//! derived from the thread on every read, and an activity goes by its first
//! tool call, so that expansion and selection survive while a turn streams.

use vstd::prelude::*;
use crate::format::{append_decimal, decimal};
use crate::hosted_agent::opt_str;
use crate::inbox::{copy_text, text_of};
use crate::lines::strings;
use crate::paths::{file_name, path_file_name, relative, relative_to};
use crate::text::{append_str, from_chars, own, same, same_str, to_chars};
use crate::words::list_holds;

verus! {

/// What a tool call does.
#[derive(Debug, Clone, Copy, PartialEq, Eq, Structural)]
pub enum ToolKind {
    Read,
    Edit,
    Delete,
    Move,
    Search,
    Execute,
    Think,
    Fetch,
    SwitchMode,
    Other,
}

/// Where a tool call stands.
#[derive(Debug, Clone, Copy, PartialEq, Eq, Structural)]
pub enum CallStatus {
    Pending,
    WaitingForConfirmation,
    InProgress,
    Completed,
    Failed,
    Rejected,
    Canceled,
}

/// A tool call of the thread.
#[derive(Debug, Clone, PartialEq)]
pub struct ToolCall {
    pub id: String,
    pub kind: ToolKind,
    pub status: CallStatus,
    /// The path of the first file that it touches.
    pub location: Option<String>,
    pub label: String,
    pub tool_name: Option<String>,
}

/// A piece of an assistant's message.
#[derive(Debug, Clone, Copy, PartialEq, Eq, Structural)]
pub enum Chunk {
    Message,
    Thought,
}

/// An entry of the thread.
#[derive(Debug, Clone, PartialEq)]
pub enum ThreadEntry {
    UserMessage,
    AssistantMessage(Vec<Chunk>),
    ToolCall(ToolCall),
    /// A question, by its id.
    Elicitation(String),
    /// A finished plan of so many steps.
    CompletedPlan(usize),
    ContextCompaction,
}

/// How an entry takes part in the grouping.
#[derive(Debug, Clone, PartialEq)]
pub enum EntryShape {
    Tool(String),
    /// Shows nothing: it neither takes a row nor splits a run of tool calls.
    Hidden,
    Visible,
}

/// What a shape is.
pub enum Shape {
    Tool(Seq<char>),
    Hidden,
    Visible,
}

impl View for EntryShape {
    type V = Shape;

    open spec fn view(&self) -> Shape {
        match *self {
            EntryShape::Tool(id) => Shape::Tool(id@),
            EntryShape::Hidden => Shape::Hidden,
            EntryShape::Visible => Shape::Visible,
        }
    }
}

/// Whether a message holds thoughts alone.
pub open spec fn thoughts_alone(chunks: Seq<Chunk>) -> bool {
    forall|i: int| 0 <= i < chunks.len() ==> #[trigger] chunks[i] == Chunk::Thought
}

/// The shape of an entry: a message of thoughts alone shows nothing.
pub open spec fn shape_of(entry: ThreadEntry) -> Shape {
    match entry {
        ThreadEntry::ToolCall(call) => Shape::Tool(call.id@),
        ThreadEntry::AssistantMessage(chunks) => if thoughts_alone(chunks@) {
            Shape::Hidden
        } else {
            Shape::Visible
        },
        _ => Shape::Visible,
    }
}

/// The shapes of entries.
pub open spec fn shapes_of(entries: Seq<ThreadEntry>) -> Seq<Shape> {
    entries.map_values(|e: ThreadEntry| shape_of(e))
}

/// The shape of an entry.
pub fn entry_shape(entry: &ThreadEntry) -> (shape: EntryShape)
    ensures
        shape@ == shape_of(*entry),
{
    match entry {
        ThreadEntry::ToolCall(call) => EntryShape::Tool(call.id.clone()),
        ThreadEntry::AssistantMessage(chunks) => {
            let mut i: usize = 0;
            while i < chunks.len()
                invariant
                    i <= chunks@.len(),
                    forall|k: int| 0 <= k < i ==> #[trigger] chunks@[k] == Chunk::Thought,
                    *entry == ThreadEntry::AssistantMessage(*chunks),
                decreases chunks@.len() - i,
            {
                if chunks[i] != Chunk::Thought {
                    assert(!thoughts_alone(chunks@));
                    return EntryShape::Visible;
                }
                i = i + 1;
            }
            EntryShape::Hidden
        },
        _ => EntryShape::Visible,
    }
}

/// A row of the chat: an entry of the thread, or a run of tool calls, each with
/// its place in the thread.
#[derive(Debug, Clone, PartialEq)]
pub enum ChatItem {
    Entry(usize),
    Activity { key: String, calls: Vec<(usize, String)> },
}

/// What a row is.
pub enum Item {
    Entry(int),
    Activity(Seq<char>, Seq<(int, Seq<char>)>),
}

/// What tool calls are.
pub open spec fn calls_of(calls: Seq<(usize, String)>) -> Seq<(int, Seq<char>)> {
    calls.map_values(|c: (usize, String)| (c.0 as int, c.1@))
}

impl View for ChatItem {
    type V = Item;

    open spec fn view(&self) -> Item {
        match *self {
            ChatItem::Entry(index) => Item::Entry(index as int),
            ChatItem::Activity { key, calls } => Item::Activity(key@, calls_of(calls@)),
        }
    }
}

/// What rows are.
pub open spec fn items_view(items: Seq<ChatItem>) -> Seq<Item> {
    items.map_values(|i: ChatItem| i@)
}

/// What shapes are.
pub open spec fn shapes_view(shapes: Seq<EntryShape>) -> Seq<Shape> {
    shapes.map_values(|s: EntryShape| s@)
}

/// The run of tool calls that the thread ends with.
pub open spec fn open_run(shapes: Seq<Shape>) -> Seq<(int, Seq<char>)>
    decreases shapes.len(),
{
    if shapes.len() == 0 {
        Seq::empty()
    } else {
        let above = open_run(shapes.drop_last());
        match shapes.last() {
            Shape::Tool(id) => above.push((shapes.len() - 1, id)),
            Shape::Hidden => above,
            Shape::Visible => Seq::empty(),
        }
    }
}

/// Rows with a run of tool calls below them, which takes a row where it is not
/// empty and goes by its first call.
pub open spec fn with_run(items: Seq<Item>, run: Seq<(int, Seq<char>)>) -> Seq<Item> {
    if run.len() == 0 {
        items
    } else {
        items.push(Item::Activity(run[0].1, run))
    }
}

/// The rows above the run that the thread ends with.
pub open spec fn closed_items(shapes: Seq<Shape>) -> Seq<Item>
    decreases shapes.len(),
{
    if shapes.len() == 0 {
        Seq::empty()
    } else {
        let above = shapes.drop_last();
        if shapes.last() is Visible {
            with_run(closed_items(above), open_run(above)).push(Item::Entry(shapes.len() - 1))
        } else {
            closed_items(above)
        }
    }
}

/// The rows of the chat.
pub open spec fn items_of(shapes: Seq<Shape>) -> Seq<Item> {
    with_run(closed_items(shapes), open_run(shapes))
}

fn flush(items: &mut Vec<ChatItem>, run: Vec<(usize, String)>)
    ensures
        items_view(final(items)@) == with_run(items_view(old(items)@), calls_of(run@)),
{
    if run.len() > 0 {
        let ghost before = items@;
        let key = run[0].1.clone();
        let ghost calls = calls_of(run@);
        assert(calls[0].1 == key@);
        items.push(ChatItem::Activity { key, calls: run });
        assert(items_view(items@) =~= items_view(before).push(Item::Activity(calls[0].1, calls)));
    }
}

/// The rows of the chat.
pub fn build_items(shapes: Vec<EntryShape>) -> (items: Vec<ChatItem>)
    ensures
        items_view(items@) == items_of(shapes_view(shapes@)),
{
    let mut items: Vec<ChatItem> = Vec::new();
    let mut run: Vec<(usize, String)> = Vec::new();
    let ghost all = shapes_view(shapes@);
    let mut i: usize = 0;
    assert(items_view(items@) =~= closed_items(all.take(0)));
    assert(calls_of(run@) =~= open_run(all.take(0)));
    while i < shapes.len()
        invariant
            i <= shapes@.len(),
            all == shapes_view(shapes@),
            items_view(items@) == closed_items(all.take(i as int)),
            calls_of(run@) == open_run(all.take(i as int)),
        decreases shapes@.len() - i,
    {
        proof {
            assert(all.take(i + 1).drop_last() =~= all.take(i as int));
            assert(all.take(i + 1).last() == shapes@[i as int]@);
        }
        match &shapes[i] {
            EntryShape::Tool(id) => {
                let ghost before = run@;
                run.push((i, id.clone()));
                assert(calls_of(run@) =~= calls_of(before).push((i as int, id@)));
            },
            EntryShape::Hidden => {},
            EntryShape::Visible => {
                flush(&mut items, run);
                run = Vec::new();
                let ghost before = items@;
                items.push(ChatItem::Entry(i));
                assert(items_view(items@) =~= items_view(before).push(Item::Entry(i as int)));
                assert(calls_of(run@) =~= Seq::<(int, Seq<char>)>::empty());
            },
        }
        i = i + 1;
    }
    assert(all.take(all.len() as int) =~= all);
    flush(&mut items, run);
    items
}

/// The rows of a thread.
pub fn items_of_entries(entries: &[ThreadEntry]) -> (items: Vec<ChatItem>)
    ensures
        items_view(items@) == items_of(shapes_of(entries@)),
{
    let mut shapes: Vec<EntryShape> = Vec::new();
    let mut i: usize = 0;
    while i < entries.len()
        invariant
            i <= entries@.len(),
            shapes@.len() == i,
            forall|k: int| 0 <= k < i ==> (#[trigger] shapes@[k])@ == shape_of(entries@[k]),
        decreases entries@.len() - i,
    {
        shapes.push(entry_shape(&entries[i]));
        i = i + 1;
    }
    assert(shapes_view(shapes@) =~= shapes_of(entries@));
    build_items(shapes)
}

/// The places in the thread that a row shows.
pub open spec fn places_in(item: Item) -> Seq<int> {
    match item {
        Item::Entry(index) => seq![index],
        Item::Activity(_, calls) => calls.map_values(|c: (int, Seq<char>)| c.0),
    }
}

/// The places in the thread that rows show, in order.
pub open spec fn places(items: Seq<Item>) -> Seq<int>
    decreases items.len(),
{
    if items.len() == 0 {
        Seq::empty()
    } else {
        places(items.drop_last()) + places_in(items.last())
    }
}

/// The places of the entries that are not hidden, in order.
pub open spec fn shown_places(shapes: Seq<Shape>) -> Seq<int>
    decreases shapes.len(),
{
    if shapes.len() == 0 {
        Seq::empty()
    } else {
        let above = shown_places(shapes.drop_last());
        if shapes.last() is Hidden {
            above
        } else {
            above.push(shapes.len() - 1)
        }
    }
}

proof fn lemma_places_of_run(items: Seq<Item>, run: Seq<(int, Seq<char>)>)
    ensures
        places(with_run(items, run)) == places(items) + run.map_values(|c: (int, Seq<char>)| c.0),
{
    if run.len() == 0 {
        assert(run.map_values(|c: (int, Seq<char>)| c.0) =~= Seq::<int>::empty());
        assert(places(items) + Seq::<int>::empty() =~= places(items));
    } else {
        assert(with_run(items, run).drop_last() =~= items);
    }
}

/// Every entry that is not hidden stands in exactly one row, and in order.
pub proof fn every_step_is_shown(shapes: Seq<Shape>)
    ensures
        places(items_of(shapes)) == shown_places(shapes),
    decreases shapes.len(),
{
    let closed = closed_items(shapes);
    let run = open_run(shapes);
    lemma_places_of_run(closed, run);
    if shapes.len() > 0 {
        let above = shapes.drop_last();
        every_step_is_shown(above);
        lemma_places_of_run(closed_items(above), open_run(above));
        let n = shapes.len() - 1;
        match shapes.last() {
            Shape::Visible => {
                assert(closed.drop_last() =~= items_of(above));
                assert(places_in(closed.last()) =~= seq![n]);
                assert(run.map_values(|c: (int, Seq<char>)| c.0) =~= Seq::<int>::empty());
                assert(places(items_of(shapes)) =~= shown_places(shapes));
            },
            Shape::Tool(id) => {
                assert(run.map_values(|c: (int, Seq<char>)| c.0) =~= open_run(above).map_values(
                    |c: (int, Seq<char>)| c.0,
                ).push(n));
                assert(places(items_of(shapes)) =~= shown_places(shapes));
            },
            Shape::Hidden => {
                assert(places(items_of(shapes)) =~= shown_places(shapes));
            },
        }
    } else {
        assert(places(items_of(shapes)) =~= shown_places(shapes));
    }
}

/// Whether a row is another one that may have grown: the same entry, or the
/// same activity with more calls behind those it had.
pub open spec fn grown(before: Item, after: Item) -> bool {
    match before {
        Item::Entry(_) => after == before,
        Item::Activity(key, calls) => after matches Item::Activity(k, more) && k == key
            && calls.len() <= more.len() && more.take(calls.len() as int) == calls,
    }
}

/// The rows of a thread that grew: those above the last stay as they are.
pub open spec fn rows_grown(before: Seq<Item>, after: Seq<Item>) -> bool {
    &&& before.len() <= after.len()
    &&& forall|p: int| 0 <= p < before.len() - 1 ==> #[trigger] after[p] == before[p]
    &&& before.len() > 0 ==> grown(before.last(), after[before.len() - 1])
}

proof fn lemma_one_more(shapes: Seq<Shape>, shape: Shape)
    ensures
        rows_grown(items_of(shapes), items_of(shapes.push(shape))),
{
    let more = shapes.push(shape);
    assert(more.drop_last() =~= shapes);
    let before = items_of(shapes);
    let after = items_of(more);
    let run = open_run(shapes);
    if before.len() > 0 {
        match before.last() {
            Item::Activity(key, calls) => {
                assert(calls.take(calls.len() as int) =~= calls);
            },
            _ => {},
        }
    }
    match shape {
        Shape::Visible => {
            assert(after =~= before.push(Item::Entry(shapes.len() as int)));
        },
        Shape::Hidden => {
            assert(after =~= before);
        },
        Shape::Tool(id) => {
            let longer = run.push((shapes.len() as int, id));
            assert(after == with_run(closed_items(shapes), longer));
            if run.len() > 0 {
                assert(longer.take(run.len() as int) =~= run);
                assert(longer[0] == run[0]);
            }
        },
    }
}

/// Rows are stable while the thread grows: every row stays where it is, under
/// the key it had, and an activity only gains calls.
pub proof fn rows_are_stable(shapes: Seq<Shape>, more: Seq<Shape>)
    ensures
        rows_grown(items_of(shapes), items_of(shapes + more)),
    decreases more.len(),
{
    if more.len() == 0 {
        assert(shapes + more =~= shapes);
        let items = items_of(shapes);
        if items.len() > 0 {
            match items.last() {
                Item::Activity(key, calls) => {
                    assert(calls.take(calls.len() as int) =~= calls);
                },
                _ => {},
            }
        }
    } else {
        rows_are_stable(shapes, more.drop_last());
        let middle = shapes + more.drop_last();
        assert(shapes + more =~= middle.push(more.last()));
        lemma_one_more(middle, more.last());
        let a = items_of(shapes);
        let b = items_of(middle);
        let c = items_of(shapes + more);
        assert forall|p: int| 0 <= p < a.len() - 1 implies #[trigger] c[p] == a[p] by {
            assert(b[p] == a[p]);
        }
        if a.len() > 0 {
            let p = a.len() - 1;
            if p < b.len() - 1 {
                assert(c[p] == b[p]);
            } else {
                match (a.last(), b.last(), c[p]) {
                    (Item::Activity(_, x), Item::Activity(_, y), Item::Activity(_, z)) => {
                        assert(z.take(x.len() as int) =~= z.take(y.len() as int).take(
                            x.len() as int,
                        ));
                    },
                    _ => {},
                }
            }
        }
    }
}

/// The selected row, by what survives while a turn streams: an activity by one
/// of its tool calls, everything else by its place in the thread.
#[derive(Debug, Clone, PartialEq)]
pub enum ItemKey {
    Entry(usize),
    Activity(String),
}

/// What a key is.
pub enum Key {
    Entry(int),
    Activity(Seq<char>),
}

impl View for ItemKey {
    type V = Key;

    open spec fn view(&self) -> Key {
        match *self {
            ItemKey::Entry(index) => Key::Entry(index as int),
            ItemKey::Activity(id) => Key::Activity(id@),
        }
    }
}

/// What an optional key is.
pub open spec fn key_of(key: Option<ItemKey>) -> Option<Key> {
    match key {
        Some(k) => Some(k@),
        None => None,
    }
}

/// Whether calls hold an id.
pub open spec fn has_call(calls: Seq<(int, Seq<char>)>, id: Seq<char>) -> bool {
    exists|i: int| 0 <= i < calls.len() && (#[trigger] calls[i]).1 == id
}

/// Whether a key means a row. An activity is meant where it holds the call, not
/// only where it begins with it, so that a run that merges or splits keeps the
/// selection.
pub open spec fn means(item: Item, key: Key) -> bool {
    match (item, key) {
        (Item::Entry(index), Key::Entry(selected)) => index == selected,
        (Item::Activity(_, calls), Key::Activity(id)) => has_call(calls, id),
        _ => false,
    }
}

/// The position of the first row that a key means.
pub open spec fn position_of(items: Seq<Item>, key: Key) -> Option<int>
    decreases items.len(),
{
    if items.len() == 0 {
        None
    } else {
        match position_of(items.drop_last(), key) {
            Some(at) => Some(at),
            None => if means(items.last(), key) {
                Some(items.len() - 1)
            } else {
                None
            },
        }
    }
}

pub proof fn lemma_position(items: Seq<Item>, key: Key)
    ensures
        match position_of(items, key) {
            Some(at) => 0 <= at < items.len() && means(items[at], key) && forall|k: int|
                0 <= k < at ==> !means(#[trigger] items[k], key),
            None => forall|k: int| 0 <= k < items.len() ==> !means(#[trigger] items[k], key),
        },
    decreases items.len(),
{
    if items.len() > 0 {
        let above = items.drop_last();
        lemma_position(above, key);
        assert forall|k: int| 0 <= k < above.len() implies #[trigger] items[k] == above[k] by {}
        if position_of(above, key) is None {
            assert forall|k: int| 0 <= k < above.len() implies !means(#[trigger] items[k], key) by {
                assert(!means(above[k], key));
            }
        } else {
            let at = position_of(above, key)->0;
            assert forall|k: int| 0 <= k < at implies !means(#[trigger] items[k], key) by {
                assert(!means(above[k], key));
            }
        }
    }
}

proof fn lemma_position_is(items: Seq<Item>, key: Key, at: int)
    requires
        0 <= at < items.len(),
        means(items[at], key),
        forall|k: int| 0 <= k < at ==> !means(#[trigger] items[k], key),
    ensures
        position_of(items, key) == Some(at),
{
    lemma_position(items, key);
    match position_of(items, key) {
        Some(p) => {
            if p < at {
                assert(!means(items[p], key));
            } else if at < p {
                assert(!means(items[at], key));
            }
        },
        None => {
            assert(!means(items[at], key));
        },
    }
}

/// The selection survives while the thread grows: the selected row is found at
/// the position it had.
pub proof fn selection_survives(shapes: Seq<Shape>, more: Seq<Shape>, key: Key)
    ensures
        position_of(items_of(shapes), key) is Some ==> position_of(items_of(shapes + more), key)
            == position_of(items_of(shapes), key),
{
    let a = items_of(shapes);
    let c = items_of(shapes + more);
    rows_are_stable(shapes, more);
    lemma_position(a, key);
    if position_of(a, key) is Some {
        let at = position_of(a, key)->0;
        assert(means(c[at], key)) by {
            if at == a.len() - 1 {
                match (a[at], c[at], key) {
                    (Item::Activity(_, x), Item::Activity(_, z), Key::Activity(id)) => {
                        let i = choose|i: int| 0 <= i < x.len() && (#[trigger] x[i]).1 == id;
                        assert(z.take(x.len() as int)[i] == x[i]);
                        assert(z[i].1 == id);
                    },
                    _ => {},
                }
            } else {
                assert(c[at] == a[at]);
            }
        }
        assert forall|k: int| 0 <= k < at implies !means(#[trigger] c[k], key) by {
            assert(c[k] == a[k]);
            assert(!means(a[k], key));
        }
        lemma_position_is(c, key, at);
    }
}

fn calls_hold(calls: &Vec<(usize, String)>, id: &str) -> (yes: bool)
    ensures
        yes == has_call(calls_of(calls@), id@),
{
    let mut i: usize = 0;
    while i < calls.len()
        invariant
            i <= calls@.len(),
            forall|k: int| 0 <= k < i ==> (#[trigger] calls_of(calls@)[k]).1 != id@,
        decreases calls@.len() - i,
    {
        assert(calls_of(calls@)[i as int].1 == calls@[i as int].1@);
        if same_str(calls[i].1.as_str(), id) {
            return true;
        }
        i = i + 1;
    }
    false
}

fn is_meant(item: &ChatItem, key: &ItemKey) -> (yes: bool)
    ensures
        yes == means(item@, key@),
{
    match (item, key) {
        (ChatItem::Entry(index), ItemKey::Entry(selected)) => *index == *selected,
        (ChatItem::Activity { calls, .. }, ItemKey::Activity(id)) => calls_hold(
            calls,
            id.as_str(),
        ),
        _ => false,
    }
}

/// The position of the selected row.
pub fn selected_position(selected: &Option<ItemKey>, items: &[ChatItem]) -> (at: Option<usize>)
    ensures
        match *selected {
            None => at is None,
            Some(key) => match at {
                Some(i) => position_of(items_view(items@), key@) == Some(i as int) && i
                    < items@.len(),
                None => position_of(items_view(items@), key@) is None,
            },
        },
{
    match selected {
        None => None,
        Some(key) => {
            let ghost all = items_view(items@);
            proof {
                lemma_position(all, key@);
            }
            let mut i: usize = 0;
            while i < items.len()
                invariant
                    i <= items@.len(),
                    all == items_view(items@),
                    *selected == Some(*key),
                    forall|k: int| 0 <= k < i ==> !means(#[trigger] all[k], key@),
                decreases items@.len() - i,
            {
                assert(all[i as int] == items@[i as int]@);
                if is_meant(&items[i], key) {
                    proof {
                        lemma_position_is(all, key@, i as int);
                    }
                    return Some(i);
                }
                i = i + 1;
            }
            None
        },
    }
}

/// The key of a row.
pub open spec fn row_key(item: Item) -> Key {
    match item {
        Item::Entry(index) => Key::Entry(index),
        Item::Activity(key, _) => Key::Activity(key),
    }
}

impl ChatItem {
    /// The key of the row.
    pub fn key(&self) -> (key: ItemKey)
        ensures
            key@ == row_key(self@),
    {
        match self {
            ChatItem::Entry(index) => ItemKey::Entry(*index),
            ChatItem::Activity { key, .. } => ItemKey::Activity(key.clone()),
        }
    }
}

/// A motion of the selection.
#[derive(Debug, Clone, Copy, PartialEq, Eq, Structural)]
pub enum Motion {
    Next,
    Previous,
    First,
    Last,
}

/// Where a motion goes among `n` rows.
pub open spec fn moved(motion: Motion, at: Option<int>, n: int) -> int {
    match (motion, at) {
        (Motion::Next, Some(p)) => if p + 1 < n {
            p + 1
        } else {
            n - 1
        },
        (Motion::Next, None) => 0,
        (Motion::Previous, Some(p)) => if p > 0 {
            p - 1
        } else {
            0
        },
        (Motion::Previous, None) => n - 1,
        (Motion::First, _) => 0,
        (Motion::Last, _) => n - 1,
    }
}

/// The position of an optional key.
pub open spec fn found_at(items: Seq<Item>, selected: Option<Key>) -> Option<int> {
    match selected {
        Some(key) => position_of(items, key),
        None => None,
    }
}

/// Where the selection goes, with its position; `None` where there is no row.
pub fn select(selected: &Option<ItemKey>, items: &[ChatItem], motion: Motion) -> (to: Option<
    (usize, ItemKey),
>)
    ensures
        match to {
            Some((at, key)) => {
                &&& at < items@.len()
                &&& at == moved(
                    motion,
                    found_at(items_view(items@), key_of(*selected)),
                    items@.len() as int,
                )
                &&& key@ == row_key(items_view(items@)[at as int])
            },
            None => items@.len() == 0,
        },
{
    let n: usize = items.len();
    if n == 0 {
        return None;
    }
    let current = selected_position(selected, items);
    let at: usize = match (motion, current) {
        (Motion::Next, Some(p)) => if p + 1 < n {
            p + 1
        } else {
            n - 1
        },
        (Motion::Next, None) => 0,
        (Motion::Previous, Some(p)) => if p > 0 {
            p - 1
        } else {
            0
        },
        (Motion::Previous, None) => n - 1,
        (Motion::First, _) => 0,
        (Motion::Last, _) => n - 1,
    };
    Some((at, items[at].key()))
}

/// Whether an activity goes by its first call.
pub open spec fn keyed(item: Item) -> bool {
    item matches Item::Activity(key, calls) ==> calls.len() > 0 && calls[0].1 == key
}

/// Every activity goes by its first call.
pub proof fn activities_go_by_their_first_call(shapes: Seq<Shape>)
    ensures
        forall|i: int| 0 <= i < items_of(shapes).len() ==> keyed(#[trigger] items_of(shapes)[i]),
    decreases shapes.len(),
{
    if shapes.len() > 0 {
        activities_go_by_their_first_call(shapes.drop_last());
        let above = items_of(shapes.drop_last());
        let all = items_of(shapes);
        assert forall|i: int| 0 <= i < all.len() implies keyed(#[trigger] all[i]) by {
            if shapes.last() is Visible {
                if i < above.len() {
                    assert(all[i] == above[i]);
                }
            } else if i < closed_items(shapes).len() {
                assert(all[i] == above[i]);
            }
        }
    }
}

/// A row that is selected is found again: its key means it, and no row below
/// it is found in its place.
pub proof fn motions_land(shapes: Seq<Shape>, at: int)
    requires
        0 <= at < items_of(shapes).len(),
    ensures
        position_of(items_of(shapes), row_key(items_of(shapes)[at])) is Some,
        position_of(items_of(shapes), row_key(items_of(shapes)[at]))->0 <= at,
{
    let items = items_of(shapes);
    let key = row_key(items[at]);
    activities_go_by_their_first_call(shapes);
    lemma_position(items, key);
    assert(keyed(items[at]));
    assert(means(items[at], key)) by {
        match items[at] {
            Item::Activity(k, calls) => {
                assert(calls[0].1 == k);
            },
            _ => {},
        }
    }
}

/// What the summary needs of a tool call: its kind, and the note it touched as
/// the vault shows it.
#[derive(Debug, Clone, PartialEq)]
pub struct SummaryCall {
    pub kind: ToolKind,
    pub note: Option<String>,
}

/// What calls are, to the summary.
pub open spec fn seen(calls: Seq<SummaryCall>) -> Seq<(ToolKind, Option<Seq<char>>)> {
    calls.map_values(|c: SummaryCall| (c.kind, text_of(c.note)))
}

/// What kind of work a tool does.
#[derive(Debug, Clone, Copy, PartialEq, Eq, Structural)]
pub enum Work {
    Write,
    Look,
    Other,
}

/// What kind of work a tool does.
pub open spec fn work_of(kind: ToolKind) -> Work {
    match kind {
        ToolKind::Edit | ToolKind::Delete | ToolKind::Move => Work::Write,
        ToolKind::Read | ToolKind::Search | ToolKind::Fetch => Work::Look,
        _ => Work::Other,
    }
}

/// What kind of work a tool does.
pub fn work(kind: ToolKind) -> (w: Work)
    ensures
        w == work_of(kind),
{
    match kind {
        ToolKind::Edit | ToolKind::Delete | ToolKind::Move => Work::Write,
        ToolKind::Read | ToolKind::Search | ToolKind::Fetch => Work::Look,
        _ => Work::Other,
    }
}

/// The notes that calls of one kind of work touched, each once.
pub open spec fn notes(calls: Seq<(ToolKind, Option<Seq<char>>)>, w: Work) -> Seq<Seq<char>>
    decreases calls.len(),
{
    if calls.len() == 0 {
        Seq::empty()
    } else {
        let above = notes(calls.drop_last(), w);
        match calls.last().1 {
            Some(note) => if work_of(calls.last().0) == w && !above.contains(note) {
                above.push(note)
            } else {
                above
            },
            None => above,
        }
    }
}

/// Whether a call does one kind of work.
pub open spec fn any_work(calls: Seq<(ToolKind, Option<Seq<char>>)>, w: Work) -> bool {
    exists|i: int| 0 <= i < calls.len() && work_of((#[trigger] calls[i]).0) == w
}

/// Whether all calls of one kind of work are of one kind.
pub open spec fn all_of(calls: Seq<(ToolKind, Option<Seq<char>>)>, w: Work, kind: ToolKind) -> bool {
    forall|i: int|
        0 <= i < calls.len() && work_of((#[trigger] calls[i]).0) == w ==> calls[i].0 == kind
}

/// The activity line, from the kinds of its tool calls: writes win over looks,
/// and looks over everything else. It is in the present tense while the run is
/// still going.
pub open spec fn summary(calls: Seq<(ToolKind, Option<Seq<char>>)>, live: bool) -> Seq<char> {
    if any_work(calls, Work::Write) {
        let n = notes(calls, Work::Write);
        if n.len() == 1 {
            if all_of(calls, Work::Write, ToolKind::Delete) {
                if live {
                    "Removing "@ + n[0] + "…"@
                } else {
                    "Removed "@ + n[0]
                }
            } else if live {
                "Updating "@ + n[0] + "…"@
            } else {
                "Updated "@ + n[0]
            }
        } else if live {
            "Updating your notes…"@
        } else if n.len() == 0 {
            "Updated your notes"@
        } else {
            "Updated "@ + decimal(n.len()) + " notes"@
        }
    } else if any_work(calls, Work::Look) {
        let n = notes(calls, Work::Look);
        if n.len() == 1 && all_of(calls, Work::Look, ToolKind::Read) {
            if live {
                "Looking at "@ + n[0] + "…"@
            } else {
                "Looked at "@ + n[0]
            }
        } else if live {
            "Looking through your notes…"@
        } else {
            "Looked through your notes"@
        }
    } else if live {
        "Working behind the scenes…"@
    } else {
        "Worked behind the scenes"@
    }
}

fn has_work(calls: &[SummaryCall], w: Work) -> (yes: bool)
    ensures
        yes == any_work(seen(calls@), w),
{
    let mut i: usize = 0;
    while i < calls.len()
        invariant
            i <= calls@.len(),
            forall|k: int| 0 <= k < i ==> work_of((#[trigger] seen(calls@)[k]).0) != w,
        decreases calls@.len() - i,
    {
        assert(seen(calls@)[i as int].0 == calls@[i as int].kind);
        if work(calls[i].kind) == w {
            return true;
        }
        i = i + 1;
    }
    false
}

fn only(calls: &[SummaryCall], w: Work, kind: ToolKind) -> (yes: bool)
    ensures
        yes == all_of(seen(calls@), w, kind),
{
    let mut i: usize = 0;
    while i < calls.len()
        invariant
            i <= calls@.len(),
            forall|k: int|
                0 <= k < i && work_of((#[trigger] seen(calls@)[k]).0) == w ==> seen(calls@)[k].0
                    == kind,
        decreases calls@.len() - i,
    {
        assert(seen(calls@)[i as int].0 == calls@[i as int].kind);
        if work(calls[i].kind) == w && calls[i].kind != kind {
            return false;
        }
        i = i + 1;
    }
    true
}

fn touched(calls: &[SummaryCall], w: Work) -> (found: Vec<String>)
    ensures
        strings(found@) == notes(seen(calls@), w),
{
    let mut found: Vec<String> = Vec::new();
    let mut i: usize = 0;
    let ghost all = seen(calls@);
    assert(all.take(0) =~= Seq::<(ToolKind, Option<Seq<char>>)>::empty());
    assert(strings(found@) =~= Seq::<Seq<char>>::empty());
    while i < calls.len()
        invariant
            i <= calls@.len(),
            all == seen(calls@),
            strings(found@) == notes(all.take(i as int), w),
        decreases calls@.len() - i,
    {
        let ghost before = found@;
        proof {
            assert(all.take(i + 1).drop_last() =~= all.take(i as int));
            assert(all.take(i + 1).last() == (calls@[i as int].kind, text_of(calls@[i as int].note)));
        }
        if let Some(note) = &calls[i].note {
            if work(calls[i].kind) == w && !list_holds(found.as_slice(), note.as_str()) {
                found.push(note.clone());
                assert(strings(found@) =~= strings(before).push(note@));
            }
        }
        i = i + 1;
    }
    assert(all.take(all.len() as int) =~= all);
    found
}

fn phrase(verb: &str, note: &str, live: bool) -> (out: String)
    ensures
        out@ == (if live {
            verb@ + note@ + "…"@
        } else {
            verb@ + note@
        }),
{
    let mut out: Vec<char> = to_chars(verb);
    append_str(&mut out, note);
    if live {
        append_str(&mut out, "…");
    }
    from_chars(out.as_slice())
}

/// The activity line, from the kinds of its tool calls, with a small closed
/// vocabulary written for a note-taker.
pub fn summarize_activity(calls: &[SummaryCall], live: bool) -> (line: String)
    ensures
        line@ == summary(seen(calls@), live),
{
    if has_work(calls, Work::Write) {
        let found = touched(calls, Work::Write);
        assert(strings(found@).len() == found@.len());
        if found.len() == 1 {
            assert(strings(found@)[0] == found@[0]@);
            let verb = if only(calls, Work::Write, ToolKind::Delete) {
                if live {
                    "Removing "
                } else {
                    "Removed "
                }
            } else if live {
                "Updating "
            } else {
                "Updated "
            };
            return phrase(verb, found[0].as_str(), live);
        }
        if live {
            return own("Updating your notes…");
        }
        if found.len() == 0 {
            return own("Updated your notes");
        }
        let mut out: Vec<char> = to_chars("Updated ");
        append_decimal(&mut out, found.len() as u64);
        append_str(&mut out, " notes");
        return from_chars(out.as_slice());
    }
    if has_work(calls, Work::Look) {
        let found = touched(calls, Work::Look);
        assert(strings(found@).len() == found@.len());
        if found.len() == 1 && only(calls, Work::Look, ToolKind::Read) {
            assert(strings(found@)[0] == found@[0]@);
            let verb = if live {
                "Looking at "
            } else {
                "Looked at "
            };
            return phrase(verb, found[0].as_str(), live);
        }
        return if live {
            own("Looking through your notes…")
        } else {
            own("Looked through your notes")
        };
    }
    if live {
        own("Working behind the scenes…")
    } else {
        own("Worked behind the scenes")
    }
}

/// A path as the chat shows it: relative to the vault, or the file's name alone
/// outside of it, so that no absolute path is ever shown.
pub open spec fn path_label(path: Seq<char>, vault_root: Option<Seq<char>>) -> Seq<char> {
    let inside = match vault_root {
        Some(root) => relative(path, root),
        None => None,
    };
    match inside {
        Some(rest) => rest,
        None => {
            let name = file_name(path);
            if name.len() == 0 || name == "."@ || name == ".."@ {
                "a file"@
            } else {
                name
            }
        },
    }
}

/// A path as the chat shows it.
pub fn vault_relative_label(path: &str, vault_root: Option<&str>) -> (label: String)
    ensures
        label@ == path_label(path@, opt_str(vault_root)),
{
    if let Some(root) = vault_root {
        if let Some(rest) = relative_to(path, root) {
            return rest;
        }
    }
    let chars = to_chars(path);
    let name = path_file_name(chars.as_slice());
    if name.len() == 0 || same(name, to_chars(".").as_slice()) || same(
        name,
        to_chars("..").as_slice(),
    ) {
        own("a file")
    } else {
        from_chars(name)
    }
}

/// Outside the vault nothing but a name without slashes is shown.
pub proof fn no_folder_outside_the_vault(path: Seq<char>, vault_root: Option<Seq<char>>)
    requires
        match vault_root {
            Some(root) => relative(path, root) is None,
            None => true,
        },
    ensures
        !path_label(path, vault_root).contains('/'),
{
    reveal_strlit("a file");
    reveal_strlit("/");
    let body = crate::paths::path_body(path);
    crate::text::lemma_rfind_to(body, "/"@, body.len() - 1);
    let name = file_name(path);
    if name.contains('/') {
        let i = name.index_of('/');
        assert(name[i] == '/');
        let k = match crate::text::rfind(body, "/"@) {
            Some(at) => at + 1 + i,
            None => i,
        };
        assert(body[k] == '/');
        assert(body.subrange(k, k + 1) =~= "/"@);
        assert(crate::text::matches_at(body, "/"@, k));
    }
    assert(!"a file"@.contains('/')) by {
        if "a file"@.contains('/') {
            let i = "a file"@.index_of('/');
            assert("a file"@[i] == '/');
        }
    }
}

/// The verb of a tool call in the expanded detail.
pub fn call_verb(kind: ToolKind) -> (verb: &'static str)
    ensures
        verb@ == verb_of(kind),
{
    match kind {
        ToolKind::Read => "Read",
        ToolKind::Edit => "Edited",
        ToolKind::Delete => "Removed",
        ToolKind::Move => "Moved",
        ToolKind::Search => "Searched",
        ToolKind::Execute => "Ran",
        ToolKind::Think => "Thought",
        ToolKind::Fetch => "Looked up",
        ToolKind::SwitchMode => "Switched",
        ToolKind::Other => "Worked",
    }
}

/// The verb of a tool call.
pub open spec fn verb_of(kind: ToolKind) -> Seq<char> {
    match kind {
        ToolKind::Read => "Read"@,
        ToolKind::Edit => "Edited"@,
        ToolKind::Delete => "Removed"@,
        ToolKind::Move => "Moved"@,
        ToolKind::Search => "Searched"@,
        ToolKind::Execute => "Ran"@,
        ToolKind::Think => "Thought"@,
        ToolKind::Fetch => "Looked up"@,
        ToolKind::SwitchMode => "Switched"@,
        ToolKind::Other => "Worked"@,
    }
}

/// Whether a call is still going.
pub open spec fn is_live(status: CallStatus) -> bool {
    status == CallStatus::Pending || status == CallStatus::InProgress || status
        == CallStatus::WaitingForConfirmation
}

/// The tool call at a place in the thread.
pub open spec fn call_at(entries: Seq<ThreadEntry>, place: int) -> Option<ToolCall> {
    if 0 <= place < entries.len() {
        match entries[place] {
            ThreadEntry::ToolCall(call) => Some(call),
            _ => None,
        }
    } else {
        None
    }
}

/// The tool calls at the places of a run. A stale place is passed over.
pub open spec fn run_calls(entries: Seq<ThreadEntry>, calls: Seq<(int, Seq<char>)>) -> Seq<ToolCall>
    decreases calls.len(),
{
    if calls.len() == 0 {
        Seq::empty()
    } else {
        let above = run_calls(entries, calls.drop_last());
        match call_at(entries, calls.last().0) {
            Some(call) => above.push(call),
            None => above,
        }
    }
}

/// What the summary reads of tool calls.
pub open spec fn seen_of(calls: Seq<ToolCall>, vault_root: Option<Seq<char>>) -> Seq<
    (ToolKind, Option<Seq<char>>),
> {
    calls.map_values(
        |c: ToolCall|
            (
                c.kind,
                match c.location {
                    Some(path) => Some(path_label(path@, vault_root)),
                    None => None,
                },
            ),
    )
}

/// Whether one of the calls is still going.
pub open spec fn any_live(calls: Seq<ToolCall>) -> bool {
    exists|i: int| 0 <= i < calls.len() && is_live((#[trigger] calls[i]).status)
}

/// The line of an activity.
pub fn activity_line(
    entries: &[ThreadEntry],
    calls: &[(usize, String)],
    vault_root: Option<&str>,
) -> (line: String)
    ensures
        ({
            let run = run_calls(entries@, calls_of(calls@));
            line@ == summary(seen_of(run, opt_str(vault_root)), any_live(run))
        }),
{
    let ghost all = calls_of(calls@);
    let ghost root = opt_str(vault_root);
    let mut list: Vec<SummaryCall> = Vec::new();
    let mut live: bool = false;
    let mut i: usize = 0;
    assert(all.take(0) =~= Seq::<(int, Seq<char>)>::empty());
    assert(seen(list@) =~= seen_of(run_calls(entries@, all.take(0)), root));
    while i < calls.len()
        invariant
            i <= calls@.len(),
            all == calls_of(calls@),
            root == opt_str(vault_root),
            seen(list@) == seen_of(run_calls(entries@, all.take(i as int)), root),
            live == any_live(run_calls(entries@, all.take(i as int))),
        decreases calls@.len() - i,
    {
        let ghost before = list@;
        let ghost above = run_calls(entries@, all.take(i as int));
        let ghost run = run_calls(entries@, all.take(i + 1));
        proof {
            assert(all.take(i + 1).drop_last() =~= all.take(i as int));
            assert(all.take(i + 1).last().0 == calls@[i as int].0);
        }
        let place: usize = calls[i].0;
        if place < entries.len() {
            if let ThreadEntry::ToolCall(call) = &entries[place] {
                assert(run == above.push(*call));
                let note = match &call.location {
                    Some(path) => Some(vault_relative_label(path.as_str(), vault_root)),
                    None => None,
                };
                list.push(SummaryCall { kind: call.kind, note });
                if call.status == CallStatus::Pending || call.status == CallStatus::InProgress
                    || call.status == CallStatus::WaitingForConfirmation {
                    live = true;
                }
                proof {
                    assert(seen(list@) =~= seen(before).push((call.kind, text_of(note))));
                    assert(seen_of(run, root) =~= seen_of(above, root).push(
                        (call.kind, text_of(note)),
                    ));
                    assert(run.last() == *call);
                    if any_live(above) {
                        let k = choose|k: int|
                            0 <= k < above.len() && is_live((#[trigger] above[k]).status);
                        assert(run[k] == above[k]);
                    }
                    if any_live(run) && !is_live(call.status) {
                        let k = choose|k: int|
                            0 <= k < run.len() && is_live((#[trigger] run[k]).status);
                        assert(above[k] == run[k]);
                    }
                }
            }
        }
        i = i + 1;
    }
    assert(all.take(all.len() as int) =~= all);
    summarize_activity(list.as_slice(), live)
}

/// The file that opening an activity shows: the first that a write touched,
/// else the first that the run touched at all.
pub open spec fn first_path(calls: Seq<ToolCall>, writes: bool) -> Option<Seq<char>>
    decreases calls.len(),
{
    if calls.len() == 0 {
        None
    } else {
        match first_path(calls.drop_last(), writes) {
            Some(path) => Some(path),
            None => if writes && work_of(calls.last().kind) != Work::Write {
                None
            } else {
                text_of(calls.last().location)
            },
        }
    }
}

/// The file that opening an activity shows.
pub open spec fn opened_path(calls: Seq<ToolCall>) -> Option<Seq<char>> {
    match first_path(calls, true) {
        Some(path) => Some(path),
        None => first_path(calls, false),
    }
}

proof fn lemma_first_path_stays(
    entries: Seq<ThreadEntry>,
    calls: Seq<(int, Seq<char>)>,
    n: int,
    writes: bool,
)
    requires
        0 <= n <= calls.len(),
        first_path(run_calls(entries, calls.take(n)), writes) is Some,
    ensures
        first_path(run_calls(entries, calls), writes) == first_path(
            run_calls(entries, calls.take(n)),
            writes,
        ),
    decreases calls.len(),
{
    if n < calls.len() {
        assert(calls.drop_last().take(n) =~= calls.take(n));
        lemma_first_path_stays(entries, calls.drop_last(), n, writes);
        let above = run_calls(entries, calls.drop_last());
        if let Some(call) = call_at(entries, calls.last().0) {
            assert(above.push(call).drop_last() =~= above);
        }
    } else {
        assert(calls.take(n) =~= calls);
    }
}

/// The file that opening an activity shows.
pub fn path_to_open(entries: &[ThreadEntry], calls: &[(usize, String)]) -> (path: Option<String>)
    ensures
        text_of(path) == opened_path(run_calls(entries@, calls_of(calls@))),
{
    let ghost all = calls_of(calls@);
    let mut first: Option<String> = None;
    let mut i: usize = 0;
    assert(all.take(0) =~= Seq::<(int, Seq<char>)>::empty());
    while i < calls.len()
        invariant
            i <= calls@.len(),
            all == calls_of(calls@),
            text_of(first) == first_path(run_calls(entries@, all.take(i as int)), false),
            first_path(run_calls(entries@, all.take(i as int)), true) is None,
        decreases calls@.len() - i,
    {
        let ghost above = run_calls(entries@, all.take(i as int));
        proof {
            assert(all.take(i + 1).drop_last() =~= all.take(i as int));
            assert(all.take(i + 1).last().0 == calls@[i as int].0);
        }
        let place: usize = calls[i].0;
        if place < entries.len() {
            if let ThreadEntry::ToolCall(call) = &entries[place] {
                assert(above.push(*call).drop_last() =~= above);
                if let Some(path) = &call.location {
                    if first.is_none() {
                        first = Some(path.clone());
                    }
                    if work(call.kind) == Work::Write {
                        proof {
                            lemma_first_path_stays(entries@, all, i + 1, true);
                        }
                        return Some(path.clone());
                    }
                }
            }
        }
        i = i + 1;
    }
    assert(all.take(all.len() as int) =~= all);
    first
}

/// The activity that holds a tool call.
pub open spec fn activity_with(items: Seq<Item>, id: Seq<char>) -> Option<
    (Seq<char>, Seq<(int, Seq<char>)>),
> {
    match position_of(items, Key::Activity(id)) {
        Some(at) => match items[at] {
            Item::Activity(key, calls) => Some((key, calls)),
            Item::Entry(_) => None,
        },
        None => None,
    }
}

/// The position of the activity that holds a tool call.
pub fn activity_at(items: &[ChatItem], id: &str) -> (at: Option<usize>)
    ensures
        match at {
            Some(i) => i < items@.len() && position_of(items_view(items@), Key::Activity(id@))
                == Some(i as int) && items@[i as int] is Activity,
            None => position_of(items_view(items@), Key::Activity(id@)) is None,
        },
{
    let at = selected_position(&Some(ItemKey::Activity(own(id))), items);
    proof {
        lemma_position(items_view(items@), Key::Activity(id@));
        if let Some(i) = at {
            assert(items_view(items@)[i as int] == items@[i as int]@);
        }
    }
    at
}

/// The text beside the verb of a call in the expanded detail: its file, else
/// its label where that says more than the tool's name.
pub open spec fn detail_of(call: ToolCall, vault_root: Option<Seq<char>>) -> Option<Seq<char>> {
    match call.location {
        Some(path) => Some(path_label(path@, vault_root)),
        None => if call.label@.len() > 0 && text_of(call.tool_name) != Some(call.label@) {
            Some(call.label@)
        } else {
            None
        },
    }
}

/// How a call looks in the expanded detail. A call that failed looks like any
/// other.
#[derive(Debug, Clone, PartialEq)]
pub struct CallRow {
    pub id: String,
    pub verb: &'static str,
    pub detail: Option<String>,
    /// Whether the detail is set in the editor's font: for a command.
    pub as_command: bool,
    /// The file that a click opens.
    pub open_path: Option<String>,
}

/// How a call looks in the expanded detail.
pub fn call_row(call: &ToolCall, vault_root: Option<&str>) -> (row: CallRow)
    ensures
        row.id@ == "thock-chat-call-"@ + call.id@,
        row.verb@ == verb_of(call.kind),
        text_of(row.detail) == detail_of(*call, opt_str(vault_root)),
        row.as_command == (call.location is None && row.detail is Some && call.kind
            == ToolKind::Execute),
        text_of(row.open_path) == text_of(call.location),
{
    let mut id: Vec<char> = to_chars("thock-chat-call-");
    append_str(&mut id, call.id.as_str());
    let detail = match &call.location {
        Some(path) => Some(vault_relative_label(path.as_str(), vault_root)),
        None => {
            let is_name: bool = match &call.tool_name {
                Some(name) => same_str(name.as_str(), call.label.as_str()),
                None => false,
            };
            if to_chars(call.label.as_str()).len() > 0 && !is_name {
                Some(call.label.clone())
            } else {
                None
            }
        },
    };
    let as_command: bool = call.location.is_none() && detail.is_some() && call.kind
        == ToolKind::Execute;
    CallRow {
        id: from_chars(id.as_slice()),
        verb: call_verb(call.kind),
        detail,
        as_command,
        open_path: copy_text(&call.location),
    }
}

/// The line of a finished plan.
pub fn plan_line(steps: usize) -> (line: String)
    ensures
        line@ == "Finished a plan of "@ + decimal(steps as nat) + " step"@ + (if steps == 1 {
            ""@
        } else {
            "s"@
        }) + "."@,
{
    let mut out: Vec<char> = to_chars("Finished a plan of ");
    append_decimal(&mut out, steps as u64);
    append_str(&mut out, " step");
    append_str(
        &mut out,
        if steps == 1 {
            ""
        } else {
            "s"
        },
    );
    append_str(&mut out, ".");
    from_chars(out.as_slice())
}

} // verus!
