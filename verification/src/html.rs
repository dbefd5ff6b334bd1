//! An honest reduction of HTML to plain text: scripts and styles are dropped,
//! closings of block elements become line breaks, entities are decoded, and
//! runs of blank lines collapse. It is no Markdown conversion, deliberately.

use vstd::prelude::*;
use vstd::slice::slice_subrange;
use crate::clean::lemma_trim_ends;
use crate::format::{ascii_lowered, char_ascii_lower};
use crate::lines::{
    char_position, lemma_next_char, lines, next_char, single_lines, split_lines, texts,
};
use crate::text::{
    append, append_str, begins, find, from_chars, is_white, position, same, stands_at, to_chars,
    trim, trimmed,
};

verus! {

/// `s` with its ASCII letters made small.
pub fn ascii_lowered_chars(s: &[char]) -> (out: Vec<char>)
    ensures
        out@ == ascii_lowered(s@),
{
    let mut out: Vec<char> = Vec::new();
    let mut i: usize = 0;
    while i < s.len()
        invariant
            i <= s@.len(),
            out@.len() == i,
            forall|j: int| 0 <= j < i ==> #[trigger] out@[j] == ascii_lowered(s@)[j],
        decreases s@.len() - i,
    {
        out.push(char_ascii_lower(s[i]));
        i = i + 1;
    }
    assert(out@ =~= ascii_lowered(s@));
    out
}

/// A text without the elements of the given name, each from its opening to the
/// end of its closing tag; one that is not closed reaches to the end. Letter
/// case is ignored.
pub open spec fn without_element(html: Seq<char>, element: Seq<char>) -> Seq<char>
    decreases html.len(),
{
    let lower = ascii_lowered(html);
    match find(lower, seq!['<'] + element) {
        Some(start) => if 0 <= start < html.len() {
            html.take(start) + (match find(lower.skip(start), "</"@ + element) {
                Some(at) => {
                    let end = next_char(html, '>', start + at);
                    if 0 <= end < html.len() {
                        without_element(html.skip(end + 1), element)
                    } else {
                        Seq::empty()
                    }
                },
                None => Seq::empty(),
            })
        } else {
            html
        },
        None => html,
    }
}

/// A text without the elements of the given name.
pub fn strip_element(html: &[char], element: &str) -> (out: Vec<char>)
    ensures
        out@ == without_element(html@, element@),
{
    let lower = ascii_lowered_chars(html);
    let mut open: Vec<char> = Vec::new();
    open.push('<');
    append_str(&mut open, element);
    let mut close: Vec<char> = to_chars("</");
    append_str(&mut close, element);
    assert(open@ =~= seq!['<'] + element@);
    let mut out: Vec<char> = Vec::new();
    let mut cursor: usize = 0;
    assert(html@.skip(0) =~= html@);
    assert(out@ + without_element(html@.skip(0), element@) =~= without_element(html@, element@));
    loop
        invariant
            cursor <= html@.len(),
            lower@ == ascii_lowered(html@),
            lower@.len() == html@.len(),
            open@ == seq!['<'] + element@,
            close@ == "</"@ + element@,
            out@ + without_element(html@.skip(cursor as int), element@) == without_element(
                html@,
                element@,
            ),
        decreases html@.len() - cursor,
    {
        let ghost rest = html@.skip(cursor as int);
        let here = slice_subrange(lower.as_slice(), cursor, lower.len());
        assert(here@ =~= ascii_lowered(rest));
        match position(here, open.as_slice()) {
            Some(offset) => {
                let ghost before = out@;
                proof {
                    crate::text::lemma_find_from(here@, open@, 0);
                }
                let start: usize = cursor + offset;
                append(&mut out, slice_subrange(html, cursor, start));
                assert(out@ =~= before + rest.take(offset as int));
                let behind = slice_subrange(lower.as_slice(), start, lower.len());
                assert(behind@ =~= here@.skip(offset as int));
                match position(behind, close.as_slice()) {
                    Some(at) => {
                        proof {
                            crate::text::lemma_find_from(behind@, close@, 0);
                        }
                        let from: usize = start + at;
                        let end: usize = char_position(html, '>', from);
                        proof {
                            lemma_next_char_skip(html@, '>', cursor as int, offset + at);
                        }
                        if end < html.len() {
                            assert(rest.skip(end - cursor + 1) =~= html@.skip(end + 1));
                            cursor = end + 1;
                            assert(out@ + without_element(html@.skip(cursor as int), element@)
                                =~= before + without_element(rest, element@));
                        } else {
                            assert(out@ =~= before + without_element(rest, element@));
                            return out;
                        }
                    },
                    None => {
                        assert(out@ =~= before + without_element(rest, element@));
                        return out;
                    },
                }
            },
            None => {
                let ghost before = out@;
                append(&mut out, slice_subrange(html, cursor, html.len()));
                assert(html@.subrange(cursor as int, html@.len() as int) =~= rest);
                return out;
            },
        }
    }
}

/// A search in a suffix.
pub proof fn lemma_next_char_skip(s: Seq<char>, c: char, k: int, from: int)
    requires
        0 <= k <= s.len(),
        0 <= from <= s.len() - k,
    ensures
        next_char(s.skip(k), c, from) == next_char(s, c, k + from) - k,
{
    lemma_next_char(s, c, k + from);
    let at = next_char(s, c, k + from);
    let t = s.skip(k);
    assert forall|j: int| from <= j < at - k implies t[j] != c by {
        assert(t[j] == s[k + j]);
    }
    crate::lines::lemma_next_char_is(t, c, from, at - k);
}

/// The value of a digit, in small or capital letters.
pub open spec fn digit_value(c: char) -> int {
    if '0' <= c && c <= '9' {
        c as int - 48
    } else if 'a' <= c && c <= 'z' {
        c as int - 87
    } else if 'A' <= c && c <= 'Z' {
        c as int - 55
    } else {
        99
    }
}

fn value_of_digit(c: char) -> (n: u32)
    ensures
        n == digit_value(c),
{
    if '0' <= c && c <= '9' {
        c as u32 - 48
    } else if 'a' <= c && c <= 'z' {
        c as u32 - 87
    } else if 'A' <= c && c <= 'Z' {
        c as u32 - 55
    } else {
        99
    }
}

/// The value of a run of digits.
pub open spec fn digits_value(s: Seq<char>, base: int) -> int
    decreases s.len(),
{
    if s.len() == 0 {
        0
    } else {
        digits_value(s.drop_last(), base) * base + digit_value(s.last())
    }
}

/// Whether all characters are digits.
pub open spec fn all_digits(s: Seq<char>, base: int) -> bool {
    forall|i: int| 0 <= i < s.len() ==> digit_value(#[trigger] s[i]) < base
}

/// The number that a text states: digits, a plus sign may stand in front.
pub open spec fn number(s: Seq<char>, base: int) -> Option<int> {
    let t = if s.len() > 0 && s[0] == '+' {
        s.skip(1)
    } else {
        s
    };
    if t.len() > 0 && all_digits(t, base) && digits_value(t, base) <= u32::MAX {
        Some(digits_value(t, base))
    } else {
        None
    }
}

/// A power of a base, as a bound for the values of digits.
spec fn bound(base: int, n: nat) -> int
    decreases n,
{
    if n == 0 {
        1
    } else {
        bound(base, (n - 1) as nat) * base
    }
}

/// The number that a short text states.
pub fn parse_number(s: &[char], base: u32) -> (n: Option<u32>)
    requires
        s@.len() <= 12,
        base == 10 || base == 16,
    ensures
        match n {
            Some(v) => number(s@, base as int) == Some(v as int),
            None => number(s@, base as int) is None,
        },
{
    let from: usize = if s.len() > 0 && s[0] == '+' {
        1
    } else {
        0
    };
    let ghost t = s@.skip(from as int);
    assert(from == 0 ==> t =~= s@);
    if from == s.len() {
        return None;
    }
    let mut value: u64 = 0;
    let mut i: usize = from;
    assert(t.take(0) =~= Seq::<char>::empty());
    while i < s.len()
        invariant
            from <= i <= s@.len() <= 12,
            t == s@.skip(from as int),
            base == 10 || base == 16,
            value == digits_value(t.take(i - from), base as int),
            all_digits(t.take(i - from), base as int),
            0 <= value < bound(16, (i - from) as nat),
            number(s@, base as int) == (if t.len() > 0 && all_digits(t, base as int)
                && digits_value(t, base as int) <= u32::MAX {
                Some(digits_value(t, base as int))
            } else {
                None
            }),
        decreases s@.len() - i,
    {
        let d: u32 = value_of_digit(s[i]);
        assert(t[i - from] == s@[i as int]);
        if d >= base {
            assert(!all_digits(t, base as int)) by {
                assert(digit_value(t[i - from]) >= base);
            }
            return None;
        }
        proof {
            reveal_with_fuel(bound, 13);
            assert(t.take(i - from + 1).drop_last() =~= t.take(i - from));
            assert(t.take(i - from + 1).last() == s@[i as int]);
            let n = (i - from) as nat;
            assert(bound(16, n) <= 0x1000_0000_0000) by {
                assert(n <= 11);
                lemma_bound(n);
            }
            assert(value * base <= value * 16);
            assert(bound(16, n + 1) == bound(16, n) * 16);
        }
        value = value * (base as u64) + d as u64;
        assert(all_digits(t.take(i - from + 1), base as int)) by {
            let w = t.take(i - from + 1);
            assert forall|j: int| 0 <= j < w.len() implies digit_value(#[trigger] w[j]) < base by {
                if j < i - from {
                    assert(w[j] == t.take(i - from)[j]);
                }
            }
        }
        i = i + 1;
    }
    assert(t.take(t.len() as int) =~= t);
    if value <= 0xffff_ffff {
        Some(value as u32)
    } else {
        None
    }
}

proof fn lemma_bound(n: nat)
    requires
        n <= 11,
    ensures
        bound(16, n) <= 0x1000_0000_0000,
{
    reveal_with_fuel(bound, 13);
}

/// Whether a number is a Unicode scalar value.
pub open spec fn is_scalar(n: int) -> bool {
    0 <= n < 0xd800 || 0xe000 <= n <= 0x10ffff
}

/// `char::from_u32`: the character of a scalar value, `None` for any other
/// number.
#[verifier::external_body]
fn char_from(n: u32) -> (c: Option<char>)
    ensures
        c is Some <==> is_scalar(n as int),
        c matches Some(x) ==> x as int == n,
{
    char::from_u32(n)
}

/// The character that an entity's text names.
pub open spec fn entity_char(entity: Seq<char>) -> Option<char> {
    if entity == "amp"@ {
        Some('&')
    } else if entity == "lt"@ {
        Some('<')
    } else if entity == "gt"@ {
        Some('>')
    } else if entity == "quot"@ {
        Some('"')
    } else if entity == "apos"@ {
        Some('\'')
    } else if entity == "nbsp"@ {
        Some(' ')
    } else {
        let hex = if begins(entity, "#x"@) || begins(entity, "#X"@) {
            number(entity.skip(2), 16)
        } else {
            None
        };
        let code = if hex is Some {
            hex
        } else if entity.len() > 0 && entity[0] == '#' {
            number(entity.skip(1), 10)
        } else {
            None
        };
        match code {
            Some(n) => if is_scalar(n) {
                Some(n as char)
            } else {
                None
            },
            None => None,
        }
    }
}

/// Whether the characters are those of the string.
fn is_text(s: &[char], t: &str) -> (yes: bool)
    ensures
        yes == (s@ == t@),
{
    same(s, to_chars(t).as_slice())
}

/// The character that an entity's text names.
pub fn decode_entity(entity: &[char]) -> (c: Option<char>)
    requires
        entity@.len() <= 11,
    ensures
        c == entity_char(entity@),
{
    if is_text(entity, "amp") {
        return Some('&');
    }
    if is_text(entity, "lt") {
        return Some('<');
    }
    if is_text(entity, "gt") {
        return Some('>');
    }
    if is_text(entity, "quot") {
        return Some('"');
    }
    if is_text(entity, "apos") {
        return Some('\'');
    }
    if is_text(entity, "nbsp") {
        return Some(' ');
    }
    proof {
        reveal_strlit("#x");
        reveal_strlit("#X");
    }
    let mut code: Option<u32> = None;
    if stands_at(entity, to_chars("#x").as_slice(), 0) || stands_at(
        entity,
        to_chars("#X").as_slice(),
        0,
    ) {
        let hex = slice_subrange(entity, 2, entity.len());
        assert(hex@ =~= entity@.skip(2));
        code = parse_number(hex, 16);
    }
    if code.is_none() && entity.len() > 0 && entity[0] == '#' {
        let decimal = slice_subrange(entity, 1, entity.len());
        assert(decimal@ =~= entity@.skip(1));
        code = parse_number(decimal, 10);
    }
    match code {
        Some(n) => char_from(n),
        None => None,
    }
}

/// The entity that a text begins with: its character, and the position of the
/// semicolon that ends it, within twelve characters.
pub open spec fn leading_entity(s: Seq<char>) -> Option<(char, int)> {
    let end = next_char(s, ';', 0);
    if 1 <= end < 12 && end < s.len() && entity_char(s.subrange(1, end)) is Some {
        Some((entity_char(s.subrange(1, end))->0, end))
    } else {
        None
    }
}

/// A text with its entities decoded; an ampersand that begins none stays.
pub open spec fn entities(s: Seq<char>) -> Seq<char>
    decreases s.len(),
{
    let start = next_char(s, '&', 0);
    if 0 <= start < s.len() {
        let here = s.skip(start);
        s.take(start) + (match leading_entity(here) {
            Some((c, end)) => if 0 <= end < here.len() {
                seq![c] + entities(here.skip(end + 1))
            } else {
                Seq::empty()
            },
            None => seq!['&'] + entities(here.skip(1)),
        })
    } else {
        s
    }
}

/// Appends a text with its entities decoded.
pub fn push_entities_decoded(out: &mut Vec<char>, text: &[char])
    ensures
        final(out)@ == old(out)@ + entities(text@),
{
    let mut at: usize = 0;
    assert(text@.skip(0) =~= text@);
    loop
        invariant
            at <= text@.len(),
            out@ + entities(text@.skip(at as int)) == old(out)@ + entities(text@),
        decreases text@.len() - at,
    {
        let ghost rest = text@.skip(at as int);
        let ghost before = out@;
        let start: usize = char_position(text, '&', at);
        proof {
            lemma_next_char_skip(text@, '&', at as int, 0);
        }
        append(out, slice_subrange(text, at, start));
        assert(out@ =~= before + rest.take(start - at));
        if start == text.len() {
            assert(rest.take(start - at) =~= rest);
            return;
        }
        let here = slice_subrange(text, start, text.len());
        assert(here@ =~= rest.skip(start - at));
        let end: usize = char_position(here, ';', 0);
        let mut found: Option<char> = None;
        if 1 <= end && end < 12 && end < here.len() {
            found = decode_entity(slice_subrange(here, 1, end));
        }
        match found {
            Some(c) => {
                out.push(c);
                assert(here@.skip(end + 1) =~= text@.skip(start + end + 1));
                assert(out@ + entities(here@.skip(end + 1)) =~= before + entities(rest));
                at = start + end + 1;
            },
            None => {
                out.push('&');
                assert(here@.skip(1) =~= text@.skip(start + 1));
                assert(out@ + entities(here@.skip(1)) =~= before + entities(rest));
                at = start + 1;
            },
        }
    }
}

/// Whether a character ends a tag's name.
pub open spec fn ends_name(c: char) -> bool {
    c == ' ' || c == '\t' || c == '\n' || c == '/'
}

/// The name of a tag: what stands behind its slashes, up to the first white
/// space or slash, in small letters.
pub open spec fn tag_name(tag: Seq<char>) -> Seq<char>
    decreases tag.len(),
{
    if tag.len() > 0 && tag[0] == '/' {
        tag_name(tag.skip(1))
    } else {
        ascii_lowered(tag.take(name_end(tag, 0)))
    }
}

/// Where a tag's name ends.
pub open spec fn name_end(tag: Seq<char>, from: int) -> int
    decreases tag.len() - from,
{
    if from >= tag.len() {
        tag.len() as int
    } else if ends_name(tag[from]) {
        from
    } else {
        name_end(tag, from + 1)
    }
}

/// Whether a tag breaks the line wherever it stands.
pub open spec fn is_break(name: Seq<char>) -> bool {
    name == "br"@ || name == "hr"@
}

/// Whether an element is a block, whose closing breaks the line.
pub open spec fn is_block(name: Seq<char>) -> bool {
    ||| name == "p"@
    ||| name == "div"@
    ||| name == "li"@
    ||| name == "tr"@
    ||| name == "ul"@
    ||| name == "ol"@
    ||| name == "blockquote"@
    ||| name == "table"@
    ||| name == "h1"@
    ||| name == "h2"@
    ||| name == "h3"@
    ||| name == "h4"@
    ||| name == "h5"@
    ||| name == "h6"@
}

/// Whether a tag breaks the line.
pub open spec fn breaks_line(tag: Seq<char>) -> bool {
    is_break(tag_name(tag)) || (tag.len() > 0 && tag[0] == '/' && is_block(tag_name(tag)))
}

/// The name of a tag.
pub fn read_tag_name(tag: &[char]) -> (name: Vec<char>)
    ensures
        name@ == tag_name(tag@),
{
    let mut from: usize = 0;
    assert(tag@.skip(0) =~= tag@);
    while from < tag.len() && tag[from] == '/'
        invariant
            from <= tag@.len(),
            tag_name(tag@) == tag_name(tag@.skip(from as int)),
        decreases tag@.len() - from,
    {
        assert(tag@.skip(from as int).skip(1) =~= tag@.skip(from + 1));
        from = from + 1;
    }
    let ghost t = tag@.skip(from as int);
    let mut to: usize = from;
    while to < tag.len() && !(tag[to] == ' ' || tag[to] == '\t' || tag[to] == '\n' || tag[to]
        == '/')
        invariant
            from <= to <= tag@.len(),
            t == tag@.skip(from as int),
            name_end(t, 0) == name_end(t, to - from),
        decreases tag@.len() - to,
    {
        assert(t[to - from] == tag@[to as int]);
        to = to + 1;
    }
    assert(to < tag@.len() ==> t[to - from] == tag@[to as int]);
    assert(t.take(to - from) =~= tag@.subrange(from as int, to as int));
    ascii_lowered_chars(slice_subrange(tag, from, to))
}

/// Whether a tag breaks the line.
pub fn tag_breaks(tag: &[char]) -> (yes: bool)
    ensures
        yes == breaks_line(tag@),
{
    let name = read_tag_name(tag);
    let n = name.as_slice();
    if is_text(n, "br") || is_text(n, "hr") {
        return true;
    }
    if tag.len() == 0 || tag[0] != '/' {
        return false;
    }
    is_text(n, "p") || is_text(n, "div") || is_text(n, "li") || is_text(n, "tr") || is_text(
        n,
        "ul",
    ) || is_text(n, "ol") || is_text(n, "blockquote") || is_text(n, "table") || is_text(n, "h1")
        || is_text(n, "h2") || is_text(n, "h3") || is_text(n, "h4") || is_text(n, "h5") || is_text(
        n,
        "h6",
    )
}

/// A text with its tags taken out, some of them for a line break, and its
/// entities decoded. What follows a tag that does not end is dropped.
pub open spec fn untagged(s: Seq<char>) -> Seq<char>
    decreases s.len(),
{
    let open = next_char(s, '<', 0);
    if 0 <= open < s.len() {
        let close = next_char(s, '>', open);
        entities(s.take(open)) + (if open < close < s.len() {
            (if breaks_line(s.subrange(open + 1, close)) {
                seq!['\n']
            } else {
                Seq::empty()
            }) + untagged(s.skip(close + 1))
        } else {
            Seq::empty()
        })
    } else {
        entities(s)
    }
}

/// A text with its tags taken out and its entities decoded.
pub fn strip_tags(s: &[char]) -> (out: Vec<char>)
    ensures
        out@ == untagged(s@),
{
    let mut out: Vec<char> = Vec::new();
    let mut at: usize = 0;
    assert(s@.skip(0) =~= s@);
    assert(out@ + untagged(s@.skip(0)) =~= untagged(s@));
    loop
        invariant
            at <= s@.len(),
            out@ + untagged(s@.skip(at as int)) == untagged(s@),
        decreases s@.len() - at,
    {
        let ghost rest = s@.skip(at as int);
        let ghost before = out@;
        let open: usize = char_position(s, '<', at);
        proof {
            lemma_next_char_skip(s@, '<', at as int, 0);
        }
        let text = slice_subrange(s, at, open);
        assert(text@ =~= rest.take(open - at));
        push_entities_decoded(&mut out, text);
        if open == s.len() {
            assert(text@ =~= rest);
            return out;
        }
        let close: usize = char_position(s, '>', open);
        proof {
            lemma_next_char_skip(s@, '>', at as int, open - at);
            lemma_next_char(s@, '>', open as int);
        }
        if close == s.len() {
            assert(out@ =~= before + untagged(rest));
            return out;
        }
        assert(open < close);
        let tag = slice_subrange(s, open + 1, close);
        assert(tag@ =~= rest.subrange(open - at + 1, close - at));
        if tag_breaks(tag) {
            out.push('\n');
        }
        assert(rest.skip(close - at + 1) =~= s@.skip(close + 1));
        assert(out@ + untagged(s@.skip(close + 1)) =~= before + untagged(rest));
        at = close + 1;
    }
}

/// The rows trimmed, those with ink each on a line, with one blank line where
/// there were any.
pub open spec fn tidy_rows(rows: Seq<Seq<char>>) -> Seq<char>
    decreases rows.len(),
{
    if rows.len() == 0 {
        Seq::empty()
    } else {
        let above = rows.drop_last();
        let done = tidy_rows(above);
        let line = trim(rows.last());
        if line.len() == 0 {
            done
        } else if done.len() == 0 {
            line
        } else if trim(above.last()).len() == 0 {
            done + seq!['\n', '\n'] + line
        } else {
            done + seq!['\n'] + line
        }
    }
}

/// The rows trimmed, with blank runs collapsed.
pub fn collapse_rows(rows: &Vec<Vec<char>>) -> (out: Vec<char>)
    ensures
        out@ == tidy_rows(texts(rows@)),
{
    let ghost all = texts(rows@);
    let mut out: Vec<char> = Vec::new();
    let mut blank: bool = false;
    let mut i: usize = 0;
    assert(all.take(0) =~= Seq::<Seq<char>>::empty());
    while i < rows.len()
        invariant
            i <= rows@.len(),
            all == texts(rows@),
            out@ == tidy_rows(all.take(i as int)),
            i > 0 ==> blank == (trim(all[i - 1]).len() == 0),
            i == 0 ==> out@.len() == 0,
        decreases rows@.len() - i,
    {
        let ghost before = out@;
        let line = trimmed(rows[i].as_slice());
        proof {
            assert(all.take(i + 1).drop_last() =~= all.take(i as int));
            assert(all.take(i + 1).last() == rows@[i as int]@);
            assert(i > 0 ==> all.take(i as int).last() == all[i - 1]);
        }
        if line.len() == 0 {
            blank = true;
        } else {
            if out.len() > 0 {
                out.push('\n');
                if blank {
                    out.push('\n');
                }
            }
            blank = false;
            append(&mut out, line);
            assert(before.len() == 0 ==> out@ =~= line@);
            assert(before.len() > 0 && trim(all[i - 1]).len() == 0 ==> out@ =~= before + seq![
                '\n',
                '\n',
            ] + line@);
            assert(before.len() > 0 && trim(all[i - 1]).len() > 0 ==> out@ =~= before + seq!['\n']
                + line@);
        }
        i = i + 1;
    }
    assert(all.take(all.len() as int) =~= all);
    out
}

/// The plain text of an HTML text.
pub open spec fn plain_text(html: Seq<char>) -> Seq<char> {
    tidy_rows(
        lines(untagged(without_element(without_element(html, "script"@), "style"@))),
    )
}

/// Reduces HTML to plain text.
pub fn html_to_text(html: &str) -> (text: String)
    ensures
        text@ == plain_text(html@),
{
    let chars = to_chars(html);
    let no_scripts = strip_element(chars.as_slice(), "script");
    let no_styles = strip_element(no_scripts.as_slice(), "style");
    let text = strip_tags(no_styles.as_slice());
    let rows = split_lines(text.as_slice());
    from_chars(collapse_rows(&rows).as_slice())
}

/// Whether a text begins and ends with ink, and has no three line breaks in a
/// row.
pub open spec fn no_blank_runs(s: Seq<char>) -> bool {
    &&& s.len() > 0 ==> !is_white(s[0]) && !is_white(s.last())
    &&& forall|i: int|
        0 <= i < s.len() - 2 ==> !(#[trigger] s[i] == '\n' && s[i + 1] == '\n' && s[i + 2] == '\n')
}

proof fn lemma_tidy_rows(rows: Seq<Seq<char>>)
    requires
        single_lines(rows),
    ensures
        no_blank_runs(tidy_rows(rows)),
    decreases rows.len(),
{
    if rows.len() > 0 {
        let above = rows.drop_last();
        assert(single_lines(above)) by {
            assert forall|i: int, j: int|
                0 <= i < above.len() && 0 <= j < above[i].len() implies #[trigger] above[i][j]
                != '\n' by {
                assert(rows[i][j] != '\n');
            }
        }
        lemma_tidy_rows(above);
        let done = tidy_rows(above);
        let line = trim(rows.last());
        lemma_trim_ends(rows.last());
        crate::text::lemma_lead(rows.last());
        crate::text::lemma_body(crate::text::trim_start(rows.last()));
        let out = tidy_rows(rows);
        if line.len() > 0 {
            assert forall|j: int| 0 <= j < line.len() implies line[j] != '\n' by {
                let k = crate::text::lead(rows.last()) as int;
                assert(line[j] == rows[rows.len() - 1][k + j]);
            }
            assert forall|i: int| 0 <= i < out.len() - 2 implies !(#[trigger] out[i] == '\n'
                && out[i + 1] == '\n' && out[i + 2] == '\n') by {
                let n = out.len() - line.len();
                if i + 2 >= n {
                    assert(out[i + 2] == line[i + 2 - n]);
                } else if i >= done.len() - 1 {
                    assert(i + 2 >= n || out[i] == done.last());
                } else {
                    assert(out[i] == done[i] && out[i + 1] == done[i + 1]);
                    if i + 2 < done.len() {
                        assert(out[i + 2] == done[i + 2]);
                    } else {
                        assert(done[i + 1] == done.last());
                    }
                }
            }
            assert(out.last() == line.last());
            assert(done.len() > 0 ==> out[0] == done[0]);
        }
    }
}

/// The reduction of an HTML text begins and ends with ink, and blank lines
/// come singly in it.
pub proof fn blank_runs_collapse(html: Seq<char>)
    ensures
        no_blank_runs(plain_text(html)),
{
    let s = untagged(without_element(without_element(html, "script"@), "style"@));
    crate::lines::lemma_lines_single(s);
    lemma_tidy_rows(lines(s));
}

/// A text without tags, entities, line breaks and white space at its ends is
/// its own reduction.
pub proof fn plain_lines_stay(s: Seq<char>)
    requires
        !s.contains('<'),
        !s.contains('&'),
        !s.contains('\n'),
        trim(s) == s,
    ensures
        plain_text(s) == s,
{
    lemma_no_element(s, "script"@);
    lemma_no_element(s, "style"@);
    lemma_next_char(s, '<', 0);
    lemma_next_char(s, '&', 0);
    lemma_next_char(s, '\n', 0);
    assert(untagged(s) == s);
    if s.len() > 0 {
        assert(lines(s) == seq![s]);
        assert(seq![s].drop_last() =~= Seq::<Seq<char>>::empty());
        assert(tidy_rows(Seq::<Seq<char>>::empty()) =~= Seq::<char>::empty());
        assert(seq![s].last() == s);
    } else {
        assert(lines(s) =~= Seq::<Seq<char>>::empty());
        assert(s =~= Seq::<char>::empty());
    }
}

proof fn lemma_no_element(s: Seq<char>, element: Seq<char>)
    requires
        !s.contains('<'),
    ensures
        without_element(s, element) == s,
{
    let lower = ascii_lowered(s);
    let open = seq!['<'] + element;
    crate::text::lemma_find_from(lower, open, 0);
    if find(lower, open) is Some {
        let at = find(lower, open)->0;
        assert(lower.subrange(at, at + open.len())[0] == open[0]);
        assert(lower[at] == '<');
        assert(s[at] == '<');
    }
}

} // verus!
