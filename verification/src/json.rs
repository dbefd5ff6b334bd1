//! JSON texts: flat objects, and their fields.

use vstd::prelude::*;
use crate::digest::hex_digit;
use crate::format::text_before;
use crate::getting_started::pairs;
use crate::inbox::text_of;
use crate::lines::join;

verus! {

/// A character in a JSON string: quotes, backslashes and control characters are
/// escaped, all others stand for themselves.
pub open spec fn json_char(c: char) -> Seq<char> {
    if c == '"' || c == '\\' {
        seq!['\\', c]
    } else if c == '\u{8}' {
        seq!['\\', 'b']
    } else if c == '\t' {
        seq!['\\', 't']
    } else if c == '\n' {
        seq!['\\', 'n']
    } else if c == '\u{c}' {
        seq!['\\', 'f']
    } else if c == '\r' {
        seq!['\\', 'r']
    } else if (c as int) < 32 {
        seq!['\\', 'u', '0', '0', hex_digit(c as int / 16), hex_digit(c as int % 16)]
    } else {
        seq![c]
    }
}

/// A string in JSON.
pub open spec fn json_text(s: Seq<char>) -> Seq<char> {
    seq!['"'] + s.map_values(|c: char| json_char(c)).flatten() + seq!['"']
}

/// A string or a flag in a JSON object.
#[derive(Debug, Clone, PartialEq)]
pub enum JsonScalar {
    Text(String),
    Flag(bool),
}

/// What a value of a JSON object holds.
pub enum Scalar {
    Text(Seq<char>),
    Flag(bool),
}

impl View for JsonScalar {
    type V = Scalar;

    open spec fn view(&self) -> Scalar {
        match *self {
            JsonScalar::Text(s) => Scalar::Text(s@),
            JsonScalar::Flag(b) => Scalar::Flag(b),
        }
    }
}

/// What the fields of a JSON object hold.
pub open spec fn scalars(fields: Seq<(String, JsonScalar)>) -> Seq<(Seq<char>, Scalar)> {
    fields.map_values(|f: (String, JsonScalar)| (f.0@, f.1@))
}

/// A value in JSON.
pub open spec fn scalar_text(value: Scalar) -> Seq<char> {
    match value {
        Scalar::Text(s) => json_text(s),
        Scalar::Flag(true) => "true"@,
        Scalar::Flag(false) => "false"@,
    }
}

/// A JSON object with a line for each field.
pub open spec fn pretty_object(fields: Seq<(Seq<char>, Scalar)>) -> Seq<char> {
    "{\n"@ + join(
        fields.map_values(
            |f: (Seq<char>, Scalar)| "  "@ + json_text(f.0) + ": "@ + scalar_text(f.1),
        ),
        ",\n"@,
    ) + "\n}"@
}

/// `serde_json::to_string_pretty` of a `serde_json::Map`: each field on a line
/// of its own, two spaces in, in the order of the keys, in which they are given.
#[verifier::external_body]
pub(crate) fn to_json_pretty(fields: Vec<(String, JsonScalar)>) -> (out: String)
    requires
        fields@.len() > 0,
        forall|i: int|
            0 <= i < fields@.len() - 1 ==> text_before(
                (#[trigger] scalars(fields@)[i]).0,
                scalars(fields@)[i + 1].0,
            ),
    ensures
        out@ == pretty_object(scalars(fields@)),
{
    let fields = fields.into_iter().map(|(key, value)| match value {
        JsonScalar::Text(text) => (key, serde_json::Value::String(text)),
        JsonScalar::Flag(flag) => (key, serde_json::Value::Bool(flag)),
    });
    let object: serde_json::Map<String, serde_json::Value> = fields.collect();
    serde_json::to_string_pretty(&object).unwrap_or_default()
}

/// The string that a JSON object has under a key; `None` where the text is no
/// JSON object or has no such string.
pub uninterp spec fn json_field(text: Seq<char>, key: Seq<char>) -> Option<Seq<char>>;

/// `serde_json::from_str` into a `serde_json::Value`, with `get` and `as_str`:
/// the string depends on the text and the key alone, and is named
/// `json_field`.
#[verifier::external_body]
pub(crate) fn read_json_field(text: &str, key: &str) -> (value: Option<String>)
    ensures
        text_of(value) == json_field(text@, key@),
{
    let all: serde_json::Value = serde_json::from_str(text).ok()?;
    all.get(key).and_then(|value| value.as_str()).map(String::from)
}

/// A flat JSON object.
pub uninterp spec fn json_object(fields: Seq<(Seq<char>, Seq<char>)>) -> Seq<char>;

/// `serde_json::Value`'s `to_string`, on an object made of pairs of strings: the
/// text depends on the pairs alone, and is named `json_object`. It is one line,
/// and each string reads back under its key, of two pairs with one key the
/// later.
#[verifier::external_body]
pub(crate) fn to_json_object(fields: &[(String, String)]) -> (out: String)
    ensures
        out@ == json_object(pairs(fields@)),
        out@.len() > 0,
        !out@.contains('\n'),
        !out@.contains('\r'),
        forall|i: int|
            0 <= i < fields@.len() && (forall|j: int|
                i < j < fields@.len() ==> (#[trigger] fields@[j]).0@ != fields@[i].0@)
                ==> #[trigger] json_field(out@, fields@[i].0@) == Some(fields@[i].1@),
{
    let pairs = fields.iter().map(|(key, value)| (key.clone(), value.clone().into()));
    serde_json::Value::Object(pairs.collect()).to_string()
}

} // verus!
