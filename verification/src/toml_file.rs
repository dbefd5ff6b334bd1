//! TOML texts, read and changed with everything else in them kept. Comments
//! are not.

use vstd::prelude::*;
use crate::gmail_service::copy_list;
use crate::inbox::text_of;
use crate::lines::strings;
use crate::sort::views;
use crate::text::own;

verus! {

/// A TOML value: `toml`'s own type, opaque here.
#[verifier::external_type_specification]
#[verifier::external_body]
pub struct ExTomlValue(toml::Value);

/// A TOML table: `toml`'s own type, opaque here.
#[verifier::external_type_specification]
#[verifier::external_body]
#[verifier::reject_recursive_types(K)]
#[verifier::reject_recursive_types(V)]
pub struct ExTomlMap<K, V>(toml::map::Map<K, V>);

/// What a TOML value holds.
pub enum Node {
    Text(Seq<char>),
    Number(int),
    Flag(bool),
    /// A float or a date, by the text that TOML has for it.
    Other(Seq<char>),
    List(Seq<Node>),
    Table(Map<Seq<char>, Node>),
}

/// A list of texts.
pub open spec fn text_list(texts: Seq<Seq<char>>) -> Node {
    Node::List(texts.map_values(|t: Seq<char>| Node::Text(t)))
}

/// What a TOML value holds.
pub uninterp spec fn toml_node(value: toml::Value) -> Node;

/// What a TOML table holds.
pub uninterp spec fn toml_contents(table: toml::map::Map<String, toml::Value>) -> Map<
    Seq<char>,
    Node,
>;

/// What a text holds as TOML; `None` where it is none.
pub uninterp spec fn toml_parsed(raw: Seq<char>) -> Option<Map<Seq<char>, Node>>;

/// The text that is written for what a table holds.
pub uninterp spec fn toml_text(contents: Map<Seq<char>, Node>) -> Seq<char>;

/// How often a text ends with `q` in a row.
pub open spec fn run_at_end(s: Seq<char>, q: char) -> int
    decreases s.len(),
{
    if s.len() == 0 || s.last() != q {
        0
    } else {
        1 + run_at_end(s.drop_last(), q)
    }
}

/// Whether a text holds 256 double or 256 single quotes in a row.
pub open spec fn has_long_quotes(s: Seq<char>) -> bool {
    exists|n: int|
        0 <= n <= s.len() && (run_at_end(#[trigger] s.take(n), '"') >= 256 || run_at_end(
            s.take(n),
            '\'',
        ) >= 256)
}

/// The key that `toml` keeps for itself: a table that begins with it reads as a
/// date.
pub open spec fn reserved_key() -> Seq<char> {
    "$__toml_private_datetime"@
}

/// Whether a value can be written: it is nested no deeper than so many levels,
/// and no text in it holds 256 equal quotes in a row.
pub open spec fn is_writable(node: Node, depth: nat) -> bool
    decreases depth,
{
    match node {
        Node::Text(s) => !has_long_quotes(s),
        Node::List(items) => depth > 0 && forall|i: int|
            0 <= i < items.len() ==> is_writable(#[trigger] items[i], (depth - 1) as nat),
        Node::Table(entries) => depth > 0 && forall|k: Seq<char>| #[trigger]
            entries.contains_key(k) ==> is_writable(entries[k], (depth - 1) as nat),
        _ => true,
    }
}

/// Whether what a table holds can be written.
pub open spec fn can_write(contents: Map<Seq<char>, Node>) -> bool {
    forall|k: Seq<char>| #[trigger] contents.contains_key(k) ==> is_writable(contents[k], 250)
}

/// Whether a value, once written, can be read again: it is nested no deeper than
/// so many levels, and no table in it has the key that `toml` keeps for itself.
pub open spec fn is_readable(node: Node, depth: nat) -> bool
    decreases depth,
{
    match node {
        Node::List(items) => depth > 0 && forall|i: int|
            0 <= i < items.len() ==> is_readable(#[trigger] items[i], (depth - 1) as nat),
        Node::Table(entries) => depth > 0 && !entries.contains_key(reserved_key()) && forall|
            k: Seq<char>,
        |
            #[trigger] entries.contains_key(k) ==> is_readable(entries[k], (depth - 1) as nat),
        _ => true,
    }
}

/// Whether what a table holds can be read again once it is written.
pub open spec fn can_read(contents: Map<Seq<char>, Node>) -> bool {
    forall|k: Seq<char>| #[trigger] contents.contains_key(k) ==> is_readable(contents[k], 79)
}

/// `toml::from_str` into a `toml::Table`: what the table holds depends on the
/// text alone, and is named `toml_parsed`; it is `None` where the text is no
/// TOML. It calls itself once for every level of nesting, and the stack has to
/// hold that.
#[verifier::external_body]
fn parse_toml(raw: &str) -> (table: Option<toml::Table>)
    ensures
        match table {
            Some(t) => toml_parsed(raw@) == Some(toml_contents(t)),
            None => toml_parsed(raw@) is None,
        },
{
    toml::from_str(raw).ok()
}

/// `toml::to_string_pretty` of a `toml::Table`: the text depends on what the
/// table holds alone, is named `toml_text`, and reads back as what the table
/// holds, unless it is nested 80 deep, which is too deep to be read, or has a
/// nested table with the writer's own key, which might read as a date. A run of
/// 256 equal quotes would overflow a counter of the writer, which also calls
/// itself once for every level: such tables are not admitted.
#[verifier::external_body]
fn write_toml(table: &toml::Table) -> (text: String)
    requires
        can_write(toml_contents(*table)),
    ensures
        text@ == toml_text(toml_contents(*table)),
        can_read(toml_contents(*table)) ==> toml_parsed(text@) == Some(toml_contents(*table)),
{
    toml::to_string_pretty(table).unwrap_or_default()
}

/// `toml::map::Map::new`: the table holds nothing.
#[verifier::external_body]
fn empty_table() -> (table: toml::Table)
    ensures
        forall|k: Seq<char>| !#[trigger] toml_contents(table).contains_key(k),
{
    toml::Table::new()
}

/// `toml::map::Map::get`: the value under the key, if there is one.
#[verifier::external_body]
fn table_get<'a>(table: &'a toml::Table, key: &str) -> (found: Option<&'a toml::Value>)
    ensures
        match found {
            Some(v) => toml_contents(*table).contains_key(key@) && toml_node(*v) == toml_contents(
                *table,
            )[key@],
            None => !toml_contents(*table).contains_key(key@),
        },
{
    table.get(key)
}

/// `toml::map::Map::remove`: takes the value under the key out, if there is one,
/// and leaves the others.
#[verifier::external_body]
fn table_remove(table: &mut toml::Table, key: &str) -> (found: Option<toml::Value>)
    ensures
        match found {
            Some(v) => toml_contents(*old(table)).contains_key(key@) && toml_node(v)
                == toml_contents(*old(table))[key@],
            None => !toml_contents(*old(table)).contains_key(key@),
        },
        toml_contents(*final(table)) == toml_contents(*old(table)).remove(key@),
{
    table.remove(key)
}

/// `toml::map::Map::insert`: puts the value under the key, in place of one that
/// is there, and leaves the others.
#[verifier::external_body]
fn table_insert(table: &mut toml::Table, key: &str, value: toml::Value)
    ensures
        toml_contents(*final(table)) == toml_contents(*old(table)).insert(key@, toml_node(value)),
{
    table.insert(key.to_string(), value);
}

/// Whether pairs are the entries of a table.
pub open spec fn are_entries(
    pairs: Seq<(&String, &toml::Value)>,
    contents: Map<Seq<char>, Node>,
) -> bool {
    &&& forall|i: int|
        0 <= i < pairs.len() ==> contents.contains_key((#[trigger] pairs[i]).0@)
            && contents[pairs[i].0@] == toml_node(*pairs[i].1)
    &&& forall|k: Seq<char>| #[trigger]
        contents.contains_key(k) ==> exists|i: int|
            0 <= i < pairs.len() && (#[trigger] pairs[i]).0@ == k
}

/// `toml::map::Map::iter`: every entry of the table.
#[verifier::external_body]
fn table_entries<'a>(table: &'a toml::Table) -> (entries: Vec<(&'a String, &'a toml::Value)>)
    ensures
        are_entries(entries@, toml_contents(*table)),
{
    table.iter().collect()
}

/// A TOML value, taken apart.
pub enum Piece<'a> {
    Text(&'a String),
    Number(i64),
    Flag(bool),
    Other,
    List(&'a Vec<toml::Value>),
    Table(&'a toml::Table),
}

/// Whether a piece is what a value holds.
pub open spec fn is_piece(piece: Piece, node: Node) -> bool {
    match piece {
        Piece::Text(s) => node == Node::Text(s@),
        Piece::Number(n) => node == Node::Number(n as int),
        Piece::Flag(b) => node == Node::Flag(b),
        Piece::Other => node is Other,
        Piece::List(items) => node == Node::List(items@.map_values(|v: toml::Value| toml_node(v))),
        Piece::Table(table) => node == Node::Table(toml_contents(*table)),
    }
}

/// The variants of `toml::Value`, told apart.
#[verifier::external_body]
fn take_apart<'a>(value: &'a toml::Value) -> (piece: Piece<'a>)
    ensures
        is_piece(piece, toml_node(*value)),
{
    match value {
        toml::Value::String(s) => Piece::Text(s),
        toml::Value::Integer(n) => Piece::Number(*n),
        toml::Value::Boolean(b) => Piece::Flag(*b),
        toml::Value::Float(_) => Piece::Other,
        toml::Value::Datetime(_) => Piece::Other,
        toml::Value::Array(items) => Piece::List(items),
        toml::Value::Table(table) => Piece::Table(table),
    }
}

/// The variant `toml::Value::Table` and its table, told from the others.
#[verifier::external_body]
fn into_table(value: toml::Value) -> (table: Option<toml::Table>)
    ensures
        match table {
            Some(t) => toml_node(value) == Node::Table(toml_contents(t)),
            None => !(toml_node(value) is Table),
        },
{
    match value {
        toml::Value::Table(table) => Some(table),
        _ => None,
    }
}

/// The variant `toml::Value::Table`, made of its table.
#[verifier::external_body]
fn table_value(table: toml::Table) -> (value: toml::Value)
    ensures
        toml_node(value) == Node::Table(toml_contents(table)),
{
    toml::Value::Table(table)
}

/// A value to put into a configuration file.
#[derive(Debug, Clone, PartialEq)]
pub enum ConfigValue {
    Number(i64),
    Text(String),
    Texts(Vec<String>),
}

impl View for ConfigValue {
    type V = Node;

    open spec fn view(&self) -> Node {
        match *self {
            ConfigValue::Number(n) => Node::Number(n as int),
            ConfigValue::Text(s) => Node::Text(s@),
            ConfigValue::Texts(v) => text_list(strings(v@)),
        }
    }
}

/// The variants `toml::Value::Integer`, `toml::Value::String` and
/// `toml::Value::Array`, made of what they hold.
#[verifier::external_body]
fn config_value(value: ConfigValue) -> (out: toml::Value)
    ensures
        toml_node(out) == value@,
{
    match value {
        ConfigValue::Number(n) => toml::Value::Integer(n),
        ConfigValue::Text(s) => toml::Value::String(s),
        ConfigValue::Texts(v) => toml::Value::from(v),
    }
}

/// Whether a text holds 256 double or 256 single quotes in a row.
fn quotes_run_long(s: &str) -> (yes: bool)
    ensures
        yes == has_long_quotes(s@),
{
    let chars = crate::text::to_chars(s);
    let mut double: usize = 0;
    let mut single: usize = 0;
    let mut i: usize = 0;
    assert(s@.take(0) =~= Seq::<char>::empty());
    while i < chars.len()
        invariant
            i <= chars@.len(),
            chars@ == s@,
            double <= i,
            single <= i,
            double == run_at_end(s@.take(i as int), '"'),
            single == run_at_end(s@.take(i as int), '\''),
            forall|n: int|
                0 <= n <= i ==> run_at_end(#[trigger] s@.take(n), '"') < 256 && run_at_end(
                    s@.take(n),
                    '\'',
                ) < 256,
        decreases chars@.len() - i,
    {
        assert(s@.take(i + 1).drop_last() =~= s@.take(i as int));
        assert(s@.take(i + 1).last() == chars@[i as int]);
        if chars[i] == '"' {
            double = double + 1;
        } else {
            double = 0;
        }
        if chars[i] == '\'' {
            single = single + 1;
        } else {
            single = 0;
        }
        i = i + 1;
        if double >= 256 || single >= 256 {
            assert(run_at_end(s@.take(i as int), '"') >= 256 || run_at_end(
                s@.take(i as int),
                '\'',
            ) >= 256);
            return true;
        }
    }
    false
}

/// A list that can be written has only items that can be.
proof fn lemma_item_fits(items: Seq<Node>, depth: nat, i: int)
    requires
        is_writable(Node::List(items), depth),
        0 <= i < items.len(),
    ensures
        depth > 0,
        is_writable(items[i], (depth - 1) as nat),
{
    let node = Node::List(items);
    assert(node->List_0 == items);
    assert(match node {
        Node::List(list) => depth > 0 && forall|j: int|
            0 <= j < list.len() ==> is_writable(#[trigger] list[j], (depth - 1) as nat),
        _ => true,
    });
}

/// A table can be written where all its values can.
proof fn lemma_table_fits(entries: Map<Seq<char>, Node>, depth: nat)
    requires
        depth > 0,
    ensures
        is_writable(Node::Table(entries), depth) == forall|k: Seq<char>| #[trigger]
            entries.contains_key(k) ==> is_writable(entries[k], (depth - 1) as nat),
{
    let node = Node::Table(entries);
    assert(node->Table_0 == entries);
    assert(is_writable(node, depth) == match node {
        Node::Table(all) => forall|k: Seq<char>| #[trigger]
            all.contains_key(k) ==> is_writable(all[k], (depth - 1) as nat),
        _ => true,
    });
}

/// Whether a value can be written.
fn value_fits(value: &toml::Value, depth: usize) -> (yes: bool)
    ensures
        yes == is_writable(toml_node(*value), depth as nat),
    decreases depth, 1int,
{
    match take_apart(value) {
        Piece::Text(s) => !quotes_run_long(s.as_str()),
        Piece::List(items) => {
            if depth == 0 {
                return false;
            }
            let ghost nodes = items@.map_values(|v: toml::Value| toml_node(v));
            let mut i: usize = 0;
            while i < items.len()
                invariant
                    i <= items@.len(),
                    depth > 0,
                    nodes == items@.map_values(|v: toml::Value| toml_node(v)),
                    toml_node(*value) == Node::List(nodes),
                    forall|j: int|
                        0 <= j < i ==> is_writable(#[trigger] nodes[j], (depth - 1) as nat),
                decreases items@.len() - i,
            {
                if !value_fits(&items[i], depth - 1) {
                    assert(0 <= i < nodes.len());
                    assert(!is_writable(nodes[i as int], (depth - 1) as nat));
                    proof {
                        if is_writable(Node::List(nodes), depth as nat) {
                            lemma_item_fits(nodes, depth as nat, i as int);
                        }
                    }
                    return false;
                }
                assert(is_writable(nodes[i as int], (depth - 1) as nat));
                i = i + 1;
            }
            true
        },
        Piece::Table(table) => {
            if depth == 0 {
                return false;
            }
            proof {
                lemma_table_fits(toml_contents(*table), depth as nat);
            }
            entries_fit(table, depth - 1)
        },
        _ => true,
    }
}

/// Whether every value of a table can be written.
fn entries_fit(table: &toml::Table, depth: usize) -> (yes: bool)
    ensures
        yes == forall|k: Seq<char>| #[trigger]
            toml_contents(*table).contains_key(k) ==> is_writable(
                toml_contents(*table)[k],
                depth as nat,
            ),
    decreases depth, 2int,
{
    let entries = table_entries(table);
    let ghost contents = toml_contents(*table);
    let mut i: usize = 0;
    while i < entries.len()
        invariant
            i <= entries@.len(),
            contents == toml_contents(*table),
            are_entries(entries@, contents),
            forall|j: int|
                0 <= j < i ==> is_writable(contents[(#[trigger] entries@[j]).0@], depth as nat),
        decreases entries@.len() - i,
    {
        if !value_fits(entries[i].1, depth) {
            assert(contents.contains_key(entries@[i as int].0@));
            return false;
        }
        i = i + 1;
    }
    assert forall|k: Seq<char>| #[trigger] contents.contains_key(k) implies is_writable(
        contents[k],
        depth as nat,
    ) by {
        let j = choose|j: int| 0 <= j < entries@.len() && (#[trigger] entries@[j]).0@ == k;
        assert(is_writable(contents[entries@[j].0@], depth as nat));
    }
    true
}

/// The text of a table, where it can be written.
fn written(table: &toml::Table) -> (out: Option<String>)
    ensures
        match out {
            Some(t) => can_write(toml_contents(*table)) && t@ == toml_text(toml_contents(*table))
                && (can_read(toml_contents(*table)) ==> toml_parsed(t@) == Some(
                toml_contents(*table),
            )),
            None => !can_write(toml_contents(*table)),
        },
{
    if entries_fit(table, 250) {
        Some(write_toml(table))
    } else {
        None
    }
}

/// The table that stands under a key; an empty one where there is none, or
/// something else.
pub open spec fn table_under(contents: Map<Seq<char>, Node>, key: Seq<char>) -> Map<
    Seq<char>,
    Node,
> {
    if contents.contains_key(key) && contents[key] is Table {
        contents[key]->Table_0
    } else {
        Map::empty()
    }
}

/// What a text holds once a string was put under a key of a table. A value of
/// the table's name that is no table gives way to one.
pub open spec fn with_string(
    contents: Map<Seq<char>, Node>,
    table: Seq<char>,
    key: Seq<char>,
    value: Seq<char>,
) -> Map<Seq<char>, Node> {
    contents.insert(
        table,
        Node::Table(table_under(contents, table).insert(key, Node::Text(value))),
    )
}

/// The string that a text has under a key of a table, if it has one.
pub open spec fn string_at(
    contents: Option<Map<Seq<char>, Node>>,
    table: Seq<char>,
    key: Seq<char>,
) -> Option<Seq<char>> {
    match contents {
        Some(m) => if table_under(m, table).contains_key(key) && table_under(m, table)[key] is Text {
            Some(table_under(m, table)[key]->Text_0)
        } else {
            None
        },
        None => None,
    }
}

/// The string that a TOML text has under a key of a table, if it has one.
pub fn read_toml_string(raw: &str, table: &str, key: &str) -> (found: Option<String>)
    ensures
        text_of(found) == string_at(toml_parsed(raw@), table@, key@),
{
    let all = match parse_toml(raw) {
        Some(all) => all,
        None => {
            return None;
        },
    };
    let inner = match table_get(&all, table) {
        Some(value) => take_apart(value),
        None => {
            return None;
        },
    };
    match inner {
        Piece::Table(inner) => match table_get(inner, key) {
            Some(value) => match take_apart(value) {
                Piece::Text(s) => Some(own(s.as_str())),
                _ => None,
            },
            None => None,
        },
        _ => None,
    }
}

/// A TOML text with a string put under a key of a table; everything else in it
/// is kept. It is `None` exactly where the text is no TOML, or what it would
/// hold cannot be written.
pub fn write_toml_string(raw: &str, table: &str, key: &str, value: &str) -> (out: Option<String>)
    ensures
        out is Some == (toml_parsed(raw@) matches Some(m) && can_write(
            with_string(m, table@, key@, value@),
        )),
        out matches Some(t) ==> {
            let after = with_string(toml_parsed(raw@)->0, table@, key@, value@);
            t@ == toml_text(after) && (can_read(after) ==> toml_parsed(t@) == Some(after))
        },
{
    let mut all = match parse_toml(raw) {
        Some(all) => all,
        None => {
            return None;
        },
    };
    let ghost before = toml_contents(all);
    let mut inner = match table_remove(&mut all, table) {
        Some(old_value) => match into_table(old_value) {
            Some(inner) => inner,
            None => empty_table(),
        },
        None => empty_table(),
    };
    assert(toml_contents(inner) =~= table_under(before, table@));
    table_insert(&mut inner, key, config_value(ConfigValue::Text(own(value))));
    table_insert(&mut all, table, table_value(inner));
    assert(toml_contents(all) =~= with_string(before, table@, key@, value@));
    written(&all)
}

/// One change to a configuration file.
#[derive(Debug, Clone, PartialEq)]
pub struct ConfigChange {
    pub key: String,
    pub value: ConfigValue,
    /// Whether a value that is there already stays.
    pub only_if_absent: bool,
}

/// What a change says.
pub struct Change {
    pub key: Seq<char>,
    pub value: Node,
    pub only_if_absent: bool,
}

impl View for ConfigChange {
    type V = Change;

    open spec fn view(&self) -> Change {
        Change { key: self.key@, value: self.value@, only_if_absent: self.only_if_absent }
    }
}

/// What a text holds after changes, made in order.
pub open spec fn changed(contents: Map<Seq<char>, Node>, changes: Seq<Change>) -> Map<
    Seq<char>,
    Node,
>
    decreases changes.len(),
{
    if changes.len() == 0 {
        contents
    } else {
        let last = changes.last();
        let prior = changed(contents, changes.drop_last());
        if last.only_if_absent && prior.contains_key(last.key) {
            prior
        } else {
            prior.insert(last.key, last.value)
        }
    }
}

/// The value again.
fn copy_value(value: &ConfigValue) -> (copy: ConfigValue)
    ensures
        copy@ == value@,
{
    match value {
        ConfigValue::Number(n) => ConfigValue::Number(*n),
        ConfigValue::Text(s) => ConfigValue::Text(own(s.as_str())),
        ConfigValue::Texts(v) => ConfigValue::Texts(copy_list(v)),
    }
}

/// The text of a configuration file with changes made, in order. Fields that
/// the changes do not name stay as they are. It is `None` exactly where the text
/// is no TOML, or what it would hold cannot be written.
pub fn update_config_text(raw: &str, changes: &[ConfigChange]) -> (out: Option<String>)
    ensures
        out is Some == (toml_parsed(raw@) matches Some(m) && can_write(
            changed(m, views(changes@)),
        )),
        out matches Some(t) ==> {
            let after = changed(toml_parsed(raw@)->0, views(changes@));
            t@ == toml_text(after) && (can_read(after) ==> toml_parsed(t@) == Some(after))
        },
{
    let mut all = match parse_toml(raw) {
        Some(all) => all,
        None => {
            return None;
        },
    };
    let ghost before = toml_contents(all);
    let ghost list = views(changes@);
    let mut i: usize = 0;
    assert(list.take(0) =~= Seq::<Change>::empty());
    while i < changes.len()
        invariant
            i <= changes@.len(),
            list == views(changes@),
            toml_contents(all) == changed(before, list.take(i as int)),
        decreases changes@.len() - i,
    {
        let change = &changes[i];
        proof {
            assert(list.take(i + 1).drop_last() =~= list.take(i as int));
            assert(list.take(i + 1).last() == change@);
        }
        let kept: bool = change.only_if_absent && table_get(&all, change.key.as_str()).is_some();
        if !kept {
            table_insert(&mut all, change.key.as_str(), config_value(copy_value(&change.value)));
        }
        i = i + 1;
    }
    assert(list.take(list.len() as int) =~= list);
    written(&all)
}

} // verus!
