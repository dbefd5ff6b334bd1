//! Mail messages: MIME trees, encoded bodies, and encoded header words.

use base64::Engine;
use vstd::prelude::*;
use vstd::slice::slice_subrange;
use vstd::utf8::{decode_utf8, encode_utf8, valid_utf8};
use crate::digest::append_bytes;
use crate::format::{ascii_lowered, same_ignoring_case};
use crate::html::{html_to_text, plain_text};
use crate::lines::{char_position, next_char};
use crate::text::{
    all_white, append, append_str, begins, char_is_white, find, find_from, from_chars, position,
    position_from, stands_at, to_chars,
};

verus! {

/// One header of a message part.
#[derive(Debug, Clone)]
pub struct MessageHeader {
    pub name: String,
    pub value: String,
}

/// The body of a message part, as sent.
#[derive(Debug, Clone)]
pub struct PartBody {
    /// Base64url text.
    pub data: Option<String>,
}

impl Default for PartBody {
    fn default() -> (body: Self)
        ensures
            body.data is None,
    {
        PartBody { data: None }
    }
}

/// A node of a message's MIME tree.
#[derive(Debug)]
pub struct MessagePart {
    pub mime_type: String,
    pub headers: Vec<MessageHeader>,
    pub body: PartBody,
    pub parts: Vec<MessagePart>,
}

impl Default for MessagePart {
    fn default() -> (part: Self)
        ensures
            part.mime_type@.len() == 0,
            part.headers@.len() == 0,
            part.body.data is None,
            part.parts@.len() == 0,
    {
        let no_chars: Vec<char> = Vec::new();
        MessagePart {
            mime_type: from_chars(no_chars.as_slice()),
            headers: Vec::new(),
            body: PartBody::default(),
            parts: Vec::new(),
        }
    }
}

/// The value of the first header of the given name, letter case aside.
pub open spec fn header(headers: Seq<MessageHeader>, name: Seq<char>) -> Option<Seq<char>>
    decreases headers.len(),
{
    if headers.len() == 0 {
        None
    } else if ascii_lowered(headers[0].name@) == ascii_lowered(name) {
        Some(headers[0].value@)
    } else {
        header(headers.skip(1), name)
    }
}

/// The value of the first header of the given name.
pub fn header_value<'a>(payload: &'a MessagePart, name: &str) -> (value: Option<&'a str>)
    ensures
        match value {
            Some(v) => header(payload.headers@, name@) == Some(v@),
            None => header(payload.headers@, name@) is None,
        },
{
    let ghost all = payload.headers@;
    let wanted = to_chars(name);
    let mut i: usize = 0;
    assert(all.skip(0) =~= all);
    while i < payload.headers.len()
        invariant
            i <= payload.headers@.len(),
            all == payload.headers@,
            wanted@ == name@,
            header(all, name@) == header(all.skip(i as int), name@),
        decreases payload.headers@.len() - i,
    {
        assert(all.skip(i as int)[0] == all[i as int]);
        assert(all.skip(i as int).skip(1) =~= all.skip(i + 1));
        let here = to_chars(payload.headers[i].name.as_str());
        if same_ignoring_case(here.as_slice(), wanted.as_slice()) {
            return Some(payload.headers[i].value.as_str());
        }
        i = i + 1;
    }
    None
}

/// Whether a part is a leaf of the given type with data.
pub open spec fn is_leaf(part: MessagePart, mime_type: Seq<char>) -> bool {
    ascii_lowered(part.mime_type@) == ascii_lowered(mime_type) && part.body.data is Some
        && part.body.data->0@.len() > 0
}

/// The data of the first leaf of the given type, in document order.
pub open spec fn leaf(part: MessagePart, mime_type: Seq<char>) -> Option<Seq<char>>
    decreases part, part.parts@.len() + 1,
{
    if is_leaf(part, mime_type) {
        Some(part.body.data->0@)
    } else {
        leaf_from(part, mime_type, 0)
    }
}

/// The data of the first such leaf below a part, from the given child on.
pub open spec fn leaf_from(part: MessagePart, mime_type: Seq<char>, from: nat) -> Option<Seq<char>>
    decreases part, part.parts@.len() - from,
{
    if from >= part.parts@.len() {
        None
    } else {
        match leaf(part.parts@[from as int], mime_type) {
            Some(data) => Some(data),
            None => leaf_from(part, mime_type, from + 1),
        }
    }
}

/// The data of the first leaf of the given type.
pub fn find_leaf<'a>(part: &'a MessagePart, mime_type: &str) -> (data: Option<&'a str>)
    ensures
        match data {
            Some(d) => leaf(*part, mime_type@) == Some(d@),
            None => leaf(*part, mime_type@) is None,
        },
    decreases part,
{
    if same_ignoring_case(
        to_chars(part.mime_type.as_str()).as_slice(),
        to_chars(mime_type).as_slice(),
    ) {
        if let Some(data) = &part.body.data {
            if to_chars(data.as_str()).len() > 0 {
                return Some(data.as_str());
            }
        }
    }
    let mut i: usize = 0;
    while i < part.parts.len()
        invariant
            i <= part.parts@.len(),
            leaf(*part, mime_type@) == leaf_from(*part, mime_type@, i as nat),
        decreases part.parts@.len() - i,
    {
        let child = &part.parts[i];
        assert(decreases_to!(*part => part.parts@[i as int]));
        match find_leaf(child, mime_type) {
            Some(data) => {
                return Some(data);
            },
            None => {},
        }
        i = i + 1;
    }
    None
}

/// The bytes of a base64url text without padding.
pub uninterp spec fn base64_url(text: Seq<char>) -> Option<Seq<u8>>;

/// `base64`'s `Engine::decode` with `URL_SAFE_NO_PAD`: the bytes depend on the
/// text alone, and are named `base64_url`; it is `None` where the text is no
/// such encoding.
#[verifier::external_body]
fn decode_base64_url(text: &str) -> (bytes: Option<Vec<u8>>)
    ensures
        match bytes {
            Some(b) => base64_url(text@) == Some(b@),
            None => base64_url(text@) is None,
        },
{
    base64::engine::general_purpose::URL_SAFE_NO_PAD.decode(text).ok()
}

/// The bytes of a base64 text without padding.
pub uninterp spec fn base64_standard(text: Seq<char>) -> Option<Seq<u8>>;

/// `base64`'s `Engine::decode` with `STANDARD_NO_PAD`: the bytes depend on the
/// text alone, and are named `base64_standard`; it is `None` where the text is
/// no such encoding.
#[verifier::external_body]
fn decode_base64_standard(text: &str) -> (bytes: Option<Vec<u8>>)
    ensures
        match bytes {
            Some(b) => base64_standard(text@) == Some(b@),
            None => base64_standard(text@) is None,
        },
{
    base64::engine::general_purpose::STANDARD_NO_PAD.decode(text).ok()
}

/// The text of a byte string, faulty parts of it replaced.
pub uninterp spec fn utf8_lossy(bytes: Seq<u8>) -> Seq<char>;

/// `String::from_utf8_lossy`: the text depends on the bytes alone, and is named
/// `utf8_lossy`; of valid UTF-8 it is the text that the bytes encode.
#[verifier::external_body]
fn from_utf8_lossy(bytes: &[u8]) -> (text: String)
    ensures
        text@ == utf8_lossy(bytes@),
        valid_utf8(bytes@) ==> text@ == decode_utf8(bytes@),
{
    String::from_utf8_lossy(bytes).into_owned()
}

/// `s` without the given character at its end.
pub open spec fn trim_end_char(s: Seq<char>, c: char) -> Seq<char>
    decreases s.len(),
{
    if s.len() > 0 && s.last() == c {
        trim_end_char(s.drop_last(), c)
    } else {
        s
    }
}

/// `s` without the given character at its end.
pub fn trimmed_end_of(s: &[char], c: char) -> (t: &[char])
    ensures
        t@ == trim_end_char(s@, c),
{
    let mut to: usize = s.len();
    assert(s@.take(s@.len() as int) =~= s@);
    while to > 0 && s[to - 1] == c
        invariant
            to <= s@.len(),
            trim_end_char(s@, c) == trim_end_char(s@.take(to as int), c),
        decreases to,
    {
        assert(s@.take(to as int).drop_last() =~= s@.take(to - 1));
        assert(s@.take(to as int).last() == s@[to - 1]);
        to = to - 1;
    }
    assert(to > 0 ==> s@.take(to as int).last() == s@[to - 1]);
    assert(s@.subrange(0, to as int) =~= s@.take(to as int));
    slice_subrange(s, 0, to)
}

/// The text of a part's data: bytes in base64url, with padding or without.
pub open spec fn body_data(data: Seq<char>) -> Option<Seq<char>> {
    match base64_url(trim_end_char(data, '=')) {
        Some(bytes) => Some(utf8_lossy(bytes)),
        None => None,
    }
}

/// Decodes a part's data: base64url, usually without padding.
pub fn decode_body_data(data: &str) -> (text: Option<String>)
    ensures
        match text {
            Some(t) => body_data(data@) == Some(t@),
            None => body_data(data@) is None,
        },
{
    let chars = to_chars(data);
    let bare = from_chars(trimmed_end_of(chars.as_slice(), '='));
    match decode_base64_url(bare.as_str()) {
        Some(bytes) => Some(from_utf8_lossy(bytes.as_slice())),
        None => None,
    }
}

/// The text of a message, given what decoding the leaves' data gives: the first
/// plain-text leaf, else the first HTML leaf reduced to text.
pub open spec fn text_of_leaves(
    plain: Option<Option<Seq<char>>>,
    html: Option<Option<Seq<char>>>,
) -> Option<Seq<char>> {
    match plain {
        Some(text) => text,
        None => match html {
            Some(Some(text)) => Some(plain_text(text)),
            _ => None,
        },
    }
}

/// What decoding a leaf's data gives, where there is such a leaf.
pub open spec fn decoded_leaf(payload: MessagePart, mime_type: Seq<char>) -> Option<
    Option<Seq<char>>,
> {
    match leaf(payload, mime_type) {
        Some(data) => Some(body_data(data)),
        None => None,
    }
}

/// The text of a message.
pub open spec fn message_text(payload: MessagePart) -> Option<Seq<char>> {
    text_of_leaves(
        decoded_leaf(payload, "text/plain"@),
        decoded_leaf(payload, "text/html"@),
    )
}

/// Picks the text of a message from the decoded leaves: a plain-text leaf
/// wins, even one that cannot be decoded, and HTML is reduced.
pub fn choose_text(plain: Option<Option<String>>, html: Option<Option<String>>) -> (text: Option<
    String,
>)
    ensures
        ({
            let view = |x: Option<Option<String>>|
                match x {
                    Some(Some(t)) => Some(Some(t@)),
                    Some(None) => Some(None),
                    None => None,
                };
            match text {
                Some(t) => text_of_leaves(view(plain), view(html)) == Some(t@),
                None => text_of_leaves(view(plain), view(html)) is None,
            }
        }),
{
    match plain {
        Some(text) => text,
        None => match html {
            Some(Some(text)) => Some(html_to_text(text.as_str())),
            _ => None,
        },
    }
}

/// The text of a message: the first `text/plain` leaf of the MIME tree, else
/// the first `text/html` leaf reduced to text. Attachments and everything else
/// are ignored.
pub fn extract_text_body(payload: &MessagePart) -> (text: Option<String>)
    ensures
        match text {
            Some(t) => message_text(*payload) == Some(t@),
            None => message_text(*payload) is None,
        },
{
    let plain: Option<Option<String>> = match find_leaf(payload, "text/plain") {
        Some(data) => Some(decode_body_data(data)),
        None => None,
    };
    let html: Option<Option<String>> = match find_leaf(payload, "text/html") {
        Some(data) => Some(decode_body_data(data)),
        None => None,
    };
    choose_text(plain, html)
}

/// The value of a hexadecimal digit; 16 for any other byte.
pub open spec fn hex_value(b: u8) -> int {
    if 48 <= b <= 57 {
        b - 48
    } else if 65 <= b <= 70 {
        b - 55
    } else if 97 <= b <= 102 {
        b - 87
    } else {
        16
    }
}

fn value_of_hex(b: u8) -> (n: u8)
    ensures
        n == hex_value(b),
{
    if 48 <= b && b <= 57 {
        b - 48
    } else if 65 <= b && b <= 70 {
        b - 55
    } else if 97 <= b && b <= 102 {
        b - 87
    } else {
        16
    }
}

/// The bytes of a Q-encoded payload: an underscore is a space, an equals sign
/// and two hexadecimal digits a byte; with others behind it, it stands for
/// itself and they are dropped.
pub open spec fn q_bytes(s: Seq<u8>) -> Seq<u8>
    decreases s.len(),
{
    if s.len() == 0 {
        Seq::empty()
    } else if s[0] == 95 {
        seq![32u8] + q_bytes(s.skip(1))
    } else if s[0] == 61 {
        if s.len() < 3 {
            seq![61u8]
        } else if hex_value(s[1]) < 16 && hex_value(s[2]) < 16 {
            seq![(hex_value(s[1]) * 16 + hex_value(s[2])) as u8] + q_bytes(s.skip(3))
        } else {
            seq![61u8] + q_bytes(s.skip(3))
        }
    } else {
        seq![s[0]] + q_bytes(s.skip(1))
    }
}

/// Decodes a Q-encoded payload.
pub fn decode_q_encoding(payload: &str) -> (bytes: Vec<u8>)
    ensures
        bytes@ == q_bytes(encode_utf8(payload@)),
{
    let mut raw: Vec<u8> = Vec::new();
    append_bytes(&mut raw, payload);
    let ghost all = encode_utf8(payload@);
    assert(raw@ =~= all);
    let mut out: Vec<u8> = Vec::new();
    let mut i: usize = 0;
    assert(all.skip(0) =~= all);
    assert(out@ + q_bytes(all.skip(0)) =~= q_bytes(all));
    while i < raw.len()
        invariant
            i <= raw@.len(),
            raw@ == all,
            all == encode_utf8(payload@),
            out@ + q_bytes(all.skip(i as int)) == q_bytes(all),
        decreases raw@.len() - i,
    {
        let ghost rest = all.skip(i as int);
        let ghost before = out@;
        let n: usize = raw.len();
        let b: u8 = raw[i];
        assert(rest[0] == b);
        if b == 95 {
            out.push(32);
            assert(rest.skip(1) =~= all.skip(i + 1));
            assert(out@ + q_bytes(all.skip(i + 1)) =~= before + q_bytes(rest));
            i = i + 1;
        } else if b == 61 {
            if n - i < 3 {
                out.push(61);
                assert(out@ =~= before + q_bytes(rest));
                return out;
            }
            let high: u8 = value_of_hex(raw[i + 1]);
            let low: u8 = value_of_hex(raw[i + 2]);
            assert(rest[1] == raw@[i + 1] && rest[2] == raw@[i + 2]);
            if high < 16 && low < 16 {
                out.push(high * 16 + low);
            } else {
                out.push(61);
            }
            assert(rest.skip(3) =~= all.skip(i + 3));
            assert(out@ + q_bytes(all.skip(i + 3)) =~= before + q_bytes(rest));
            i = i + 3;
        } else {
            out.push(b);
            assert(rest.skip(1) =~= all.skip(i + 1));
            assert(out@ + q_bytes(all.skip(i + 1)) =~= before + q_bytes(rest));
            i = i + 1;
        }
    }
    assert(all.skip(i as int) =~= Seq::<u8>::empty());
    assert(out@ =~= q_bytes(all));
    out
}

/// The text of Latin-1 bytes.
pub open spec fn latin1(bytes: Seq<u8>) -> Seq<char> {
    bytes.map_values(|b: u8| b as char)
}

/// The text of Latin-1 bytes.
pub fn latin1_text(bytes: &[u8]) -> (text: String)
    ensures
        text@ == latin1(bytes@),
{
    let mut out: Vec<char> = Vec::new();
    let mut i: usize = 0;
    while i < bytes.len()
        invariant
            i <= bytes@.len(),
            out@.len() == i,
            forall|j: int| 0 <= j < i ==> #[trigger] out@[j] == bytes@[j] as char,
        decreases bytes@.len() - i,
    {
        out.push(bytes[i] as char);
        i = i + 1;
    }
    assert(out@ =~= latin1(bytes@));
    from_chars(out.as_slice())
}

/// Where the parts of an encoded word end: its character set, its encoding and
/// its payload.
pub open spec fn word_cuts(text: Seq<char>) -> Option<(int, int, int)> {
    if begins(text, "=?"@) {
        let a = next_char(text, '?', 2);
        let b = next_char(text, '?', a + 1);
        if a < text.len() && b < text.len() {
            match find_from(text, "?="@, b + 1) {
                Some(c) => Some((a, b, c)),
                None => None,
            }
        } else {
            None
        }
    } else {
        None
    }
}

/// The bytes of an encoded word's payload.
pub open spec fn word_bytes(encoding: Seq<char>, payload: Seq<char>) -> Option<Seq<u8>> {
    if encoding == seq!['B'] || encoding == seq!['b'] {
        base64_standard(trim_end_char(payload, '='))
    } else if encoding == seq!['Q'] || encoding == seq!['q'] {
        Some(q_bytes(encode_utf8(payload)))
    } else {
        None
    }
}

/// The text of an encoded word's bytes: Latin-1 where the character set says
/// so, else UTF-8, lossily.
pub open spec fn word_text(charset: Seq<char>, bytes: Seq<u8>) -> Seq<char> {
    if ascii_lowered(charset) == ascii_lowered("iso-8859-1"@) {
        latin1(bytes)
    } else {
        utf8_lossy(bytes)
    }
}

/// The encoded word that a text begins with: its text, and where it ends.
pub open spec fn encoded_word(text: Seq<char>) -> Option<(Seq<char>, int)> {
    match word_cuts(text) {
        Some((a, b, c)) => match word_bytes(text.subrange(a + 1, b), text.subrange(b + 1, c)) {
            Some(bytes) => Some((word_text(text.subrange(2, a), bytes), c + 2)),
            None => None,
        },
        None => None,
    }
}

/// Where the parts of an encoded word end.
pub fn split_encoded_word(text: &[char]) -> (cuts: Option<(usize, usize, usize)>)
    ensures
        match cuts {
            Some((a, b, c)) => word_cuts(text@) == Some((a as int, b as int, c as int)) && 2 <= a < b
                < c && c + 2 <= text@.len(),
            None => word_cuts(text@) is None,
        },
{
    proof {
        reveal_strlit("=?");
        reveal_strlit("?=");
    }
    if !stands_at(text, to_chars("=?").as_slice(), 0) {
        return None;
    }
    let a: usize = char_position(text, '?', 2);
    if a == text.len() {
        return None;
    }
    let b: usize = char_position(text, '?', a + 1);
    if b == text.len() {
        return None;
    }
    proof {
        crate::text::lemma_find_from(text@, "?="@, b + 1);
    }
    match position_from(text, to_chars("?=").as_slice(), b + 1) {
        Some(c) => Some((a, b, c)),
        None => None,
    }
}

/// The bytes of an encoded word's payload.
fn decode_payload(encoding: &[char], payload: &[char]) -> (bytes: Option<Vec<u8>>)
    ensures
        match bytes {
            Some(b) => word_bytes(encoding@, payload@) == Some(b@),
            None => word_bytes(encoding@, payload@) is None,
        },
{
    if encoding.len() != 1 {
        return None;
    }
    let kind: char = encoding[0];
    assert(encoding@ =~= seq![kind]);
    assert(forall|x: char| seq![x][0] == x);
    if kind == 'B' || kind == 'b' {
        let bare = from_chars(trimmed_end_of(payload, '='));
        decode_base64_standard(bare.as_str())
    } else if kind == 'Q' || kind == 'q' {
        Some(decode_q_encoding(from_chars(payload).as_str()))
    } else {
        None
    }
}

/// The text of an encoded word's bytes.
pub fn decode_word_text(charset: &[char], bytes: &[u8]) -> (text: String)
    ensures
        text@ == word_text(charset@, bytes@),
{
    if same_ignoring_case(charset, to_chars("iso-8859-1").as_slice()) {
        latin1_text(bytes)
    } else {
        from_utf8_lossy(bytes)
    }
}

/// One `=?charset?B|Q?payload?=` at the start of the text: what it says, and
/// where it ends.
pub fn decode_encoded_word(text: &[char]) -> (word: Option<(String, usize)>)
    ensures
        match word {
            Some((t, end)) => encoded_word(text@) == Some((t@, end as int)) && 2 <= end
                <= text@.len(),
            None => encoded_word(text@) is None,
        },
{
    match split_encoded_word(text) {
        Some((a, b, c)) => {
            let n: usize = text.len();
            assert(c + 2 <= n);
            let encoding = slice_subrange(text, a + 1, b);
            let payload = slice_subrange(text, b + 1, c);
            match decode_payload(encoding, payload) {
                Some(bytes) => {
                    let charset = slice_subrange(text, 2, a);
                    Some((decode_word_text(charset, bytes.as_slice()), c + 2))
                },
                None => None,
            }
        },
        None => None,
    }
}

/// A header value with its encoded words decoded. White space between two of
/// them is dropped; a marker that begins none stays.
pub open spec fn unworded(rest: Seq<char>, after_word: bool) -> Seq<char>
    decreases rest.len(),
{
    match find(rest, "=?"@) {
        Some(start) => if 0 <= start && start + 2 <= rest.len() {
            let gap = rest.take(start);
            let here = rest.skip(start);
            match encoded_word(here) {
                Some((text, end)) => if 0 < end <= here.len() {
                    (if after_word && all_white(gap) {
                        Seq::empty()
                    } else {
                        gap
                    }) + text + unworded(here.skip(end), true)
                } else {
                    Seq::empty()
                },
                None => gap + "=?"@ + unworded(here.skip(2), false),
            }
        } else {
            rest
        },
        None => rest,
    }
}

/// Whether all characters are white space.
fn is_all_white(s: &[char]) -> (yes: bool)
    ensures
        yes == all_white(s@),
{
    let mut i: usize = 0;
    while i < s.len()
        invariant
            i <= s@.len(),
            forall|j: int| 0 <= j < i ==> crate::text::is_white(#[trigger] s@[j]),
        decreases s@.len() - i,
    {
        if !char_is_white(s[i]) {
            return false;
        }
        i = i + 1;
    }
    true
}

/// Decodes the RFC 2047 encoded words in a header value. UTF-8 and Latin-1 are
/// handled; anything else decodes lossily.
pub fn decode_rfc2047(value: &str) -> (text: String)
    ensures
        text@ == unworded(value@, false),
{
    let chars = to_chars(value);
    let mark = to_chars("=?");
    let mut out: Vec<char> = Vec::new();
    let mut at: usize = 0;
    let mut after_word: bool = false;
    proof {
        reveal_strlit("=?");
        assert(chars@.skip(0) =~= chars@);
        assert(out@ + unworded(chars@.skip(0), false) =~= unworded(chars@, false));
    }
    loop
        invariant
            at <= chars@.len(),
            chars@ == value@,
            mark@ == "=?"@,
            mark@.len() == 2,
            out@ + unworded(chars@.skip(at as int), after_word) == unworded(chars@, false),
        decreases chars@.len() - at,
    {
        let ghost before = out@;
        let rest = slice_subrange(chars.as_slice(), at, chars.len());
        assert(rest@ =~= chars@.skip(at as int));
        match position(rest, mark.as_slice()) {
            Some(start) => {
                proof {
                    crate::text::lemma_find_from(rest@, mark@, 0);
                }
                let gap = slice_subrange(rest, 0, start);
                assert(gap@ =~= rest@.take(start as int));
                let here = slice_subrange(rest, start, rest.len());
                assert(here@ =~= rest@.skip(start as int));
                match decode_encoded_word(here) {
                    Some((text, end)) => {
                        if !(after_word && is_all_white(gap)) {
                            append(&mut out, gap);
                        }
                        append_str(&mut out, text.as_str());
                        assert(here@.skip(end as int) =~= chars@.skip(at + start + end));
                        assert(out@ + unworded(here@.skip(end as int), true) =~= before + unworded(
                            rest@,
                            after_word,
                        ));
                        after_word = true;
                        at = at + start + end;
                    },
                    None => {
                        append(&mut out, gap);
                        append_str(&mut out, "=?");
                        assert(here@.skip(2) =~= chars@.skip(at + start + 2));
                        assert(out@ + unworded(here@.skip(2), false) =~= before + unworded(
                            rest@,
                            after_word,
                        ));
                        after_word = false;
                        at = at + start + 2;
                    },
                }
            },
            None => {
                append(&mut out, rest);
                return from_chars(out.as_slice());
            },
        }
    }
}

/// A header value without markers is its own decoding.
pub proof fn plain_values_stay(value: Seq<char>)
    requires
        find(value, "=?"@) is None,
    ensures
        unworded(value, false) == value,
{
}

} // verus!
