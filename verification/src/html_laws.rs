//! What holds of the reduction of HTML: what was escaped reads as it was, tags go
//! and blocks stand on lines of their own, scripts leave nothing behind.

use vstd::prelude::*;
use crate::digest::hex_digit;
use crate::format::{ascii_lower, ascii_lowered, decimal};
use crate::html::{
    all_digits, breaks_line, digit_value, digits_value, ends_name, entities, entity_char,
    leading_entity, name_end, number, plain_text, tag_name, tidy_rows, untagged, without_element,
};
use crate::lines::{lemma_next_char, lemma_next_char_is, lines, next_char};
use crate::marker_laws::lemma_find_is;
use crate::text::{begins, find, lemma_find_from, matches_at, trim};

verus! {

/// A character as HTML text holds it.
pub open spec fn escaped_char(c: char) -> Seq<char> {
    if c == '&' {
        "&amp;"@
    } else if c == '<' {
        "&lt;"@
    } else if c == '>' {
        "&gt;"@
    } else if c == '"' {
        "&quot;"@
    } else if c == '\'' {
        "&apos;"@
    } else {
        seq![c]
    }
}

/// A text as HTML holds it.
pub open spec fn escaped(s: Seq<char>) -> Seq<char>
    decreases s.len(),
{
    if s.len() == 0 {
        Seq::empty()
    } else {
        escaped_char(s[0]) + escaped(s.skip(1))
    }
}

/// A character that is no ampersand is passed on.
proof fn lemma_passed(c: char, t: Seq<char>)
    requires
        c != '&',
    ensures
        entities(seq![c] + t) == seq![c] + entities(t),
{
    let s = seq![c] + t;
    lemma_next_char(t, '&', 0);
    let k = next_char(t, '&', 0);
    assert forall|j: int| 0 <= j < k + 1 implies s[j] != '&' by {
        if j > 0 {
            assert(s[j] == t[j - 1]);
        }
    }
    if k < t.len() {
        assert(s[k + 1] == t[k]);
    }
    lemma_next_char_is(s, '&', 0, k + 1);
    if k < t.len() {
        assert(s.skip(k + 1) =~= t.skip(k));
        assert(s.take(k + 1) =~= seq![c] + t.take(k));
        assert(entities(s) =~= seq![c] + entities(t));
    } else {
        assert(entities(s) =~= seq![c] + entities(t));
    }
}

/// An entity is read as its character.
proof fn lemma_entity(name: Seq<char>, c: char, t: Seq<char>)
    requires
        0 < name.len() <= 10,
        !name.contains(';'),
        entity_char(name) == Some(c),
    ensures
        entities(seq!['&'] + name + seq![';'] + t) == seq![c] + entities(t),
{
    let s = seq!['&'] + name + seq![';'] + t;
    let end = name.len() as int + 1;
    lemma_next_char_is(s, '&', 0, 0);
    assert(s.skip(0) =~= s);
    assert(s[end] == ';');
    assert forall|j: int| 0 <= j < end implies s[j] != ';' by {
        if j > 0 {
            assert(s[j] == name[j - 1]);
        }
    }
    lemma_next_char_is(s, ';', 0, end);
    assert(s.subrange(1, end) =~= name);
    assert(s.skip(end + 1) =~= t);
    assert(s.take(0) =~= Seq::<char>::empty());
    assert(entities(s) =~= seq![c] + entities(t));
}

/// What was escaped reads as it was.
#[verifier::spinoff_prover]
#[verifier::rlimit(40)]
pub proof fn escaped_text_reads_back(s: Seq<char>)
    ensures
        entities(escaped(s)) == s,
    decreases s.len(),
{
    if s.len() == 0 {
        let none = Seq::<char>::empty();
        lemma_next_char(none, '&', 0);
        assert(s =~= none);
    } else {
        let t = s.skip(1);
        let c = s[0];
        escaped_text_reads_back(t);
        reveal_strlit("&amp;");
        reveal_strlit("&lt;");
        reveal_strlit("&gt;");
        reveal_strlit("&quot;");
        reveal_strlit("&apos;");
        reveal_strlit("amp");
        reveal_strlit("lt");
        reveal_strlit("gt");
        reveal_strlit("quot");
        reveal_strlit("apos");
        let e = escaped(t);
        if c == '&' {
            lemma_entity("amp"@, c, e);
            assert(escaped(s) =~= seq!['&'] + "amp"@ + seq![';'] + e);
        } else if c == '<' {
            lemma_entity("lt"@, c, e);
            assert(escaped(s) =~= seq!['&'] + "lt"@ + seq![';'] + e);
        } else if c == '>' {
            lemma_entity("gt"@, c, e);
            assert(escaped(s) =~= seq!['&'] + "gt"@ + seq![';'] + e);
        } else if c == '"' {
            lemma_entity("quot"@, c, e);
            assert(escaped(s) =~= seq!['&'] + "quot"@ + seq![';'] + e);
        } else if c == '\'' {
            lemma_entity("apos"@, c, e);
            assert(escaped(s) =~= seq!['&'] + "apos"@ + seq![';'] + e);
        } else {
            lemma_passed(c, e);
        }
        assert(seq![c] + t =~= s);
    }
}

/// A number in hexadecimal, without leading zeros.
pub open spec fn hex_text(n: nat) -> Seq<char>
    decreases n,
{
    if n < 16 {
        seq![hex_digit(n as int)]
    } else {
        hex_text(n / 16).push(hex_digit((n % 16) as int))
    }
}

pub proof fn lemma_decimal_value(n: nat)
    ensures
        all_digits(decimal(n), 10),
        digits_value(decimal(n), 10) == n,
        decimal(n).len() > 0,
        '0' <= decimal(n)[0] <= '9',
        !decimal(n).contains(';'),
    decreases n,
{
    let s = decimal(n);
    if n >= 10 {
        lemma_decimal_value(n / 10);
        let rest = decimal(n / 10);
        assert(s.drop_last() =~= rest);
        assert(s[0] == rest[0]);
        assert forall|i: int| 0 <= i < s.len() implies digit_value(#[trigger] s[i]) < 10 && s[i]
            != ';' by {
            if i < rest.len() {
                assert(s[i] == rest[i]);
                assert(rest.contains(rest[i]));
            }
        }
    } else {
        assert(s.drop_last() =~= Seq::<char>::empty());
        assert(digits_value(Seq::<char>::empty(), 10) == 0);
    }
}

proof fn lemma_hex_value(n: nat)
    ensures
        all_digits(hex_text(n), 16),
        digits_value(hex_text(n), 16) == n,
        hex_text(n).len() > 0,
        hex_text(n)[0] != '+',
        !hex_text(n).contains(';'),
    decreases n,
{
    let s = hex_text(n);
    if n >= 16 {
        lemma_hex_value(n / 16);
        let rest = hex_text(n / 16);
        assert(s.drop_last() =~= rest);
        assert(s[0] == rest[0]);
        assert forall|i: int| 0 <= i < s.len() implies digit_value(#[trigger] s[i]) < 16 && s[i]
            != ';' by {
            if i < rest.len() {
                assert(s[i] == rest[i]);
                assert(rest.contains(rest[i]));
            }
        }
    } else {
        assert(s.drop_last() =~= Seq::<char>::empty());
        assert(digits_value(Seq::<char>::empty(), 16) == 0);
    }
}

/// A character may be given by its number, in decimal or in hexadecimal.
#[verifier::spinoff_prover]
pub proof fn numbered_characters_are_read(n: nat, rest: Seq<char>)
    requires
        n < 0xd800 || 0xe000 <= n <= 0x10ffff,
    ensures
        entities("&#"@ + decimal(n) + seq![';'] + rest) == seq![n as char] + entities(rest),
        entities("&#x"@ + hex_text(n) + seq![';'] + rest) == seq![n as char] + entities(rest),
        entities("&#X"@ + hex_text(n) + seq![';'] + rest) == seq![n as char] + entities(rest),
{
    reveal_strlit("&#");
    reveal_strlit("&#x");
    reveal_strlit("&#X");
    reveal_strlit("#x");
    reveal_strlit("#X");
    reveal_strlit("amp");
    reveal_strlit("lt");
    reveal_strlit("gt");
    reveal_strlit("quot");
    reveal_strlit("apos");
    reveal_strlit("nbsp");
    reveal_with_fuel(decimal, 9);
    reveal_with_fuel(hex_text, 9);
    lemma_decimal_value(n);
    lemma_hex_value(n);
    let d = decimal(n);
    let a = seq!['#'] + d;
    assert(d.len() <= 8);
    assert(a[0] == '#' && a[1] == d[0]);
    assert(a.skip(1) =~= d);
    if begins(a, "#x"@) {
        assert(a.subrange(0, 2)[1] == a[1]);
    }
    if begins(a, "#X"@) {
        assert(a.subrange(0, 2)[1] == a[1]);
    }
    assert(a != "amp"@ && a != "lt"@ && a != "gt"@ && a != "quot"@ && a != "apos"@ && a
        != "nbsp"@);
    assert(entity_char(a) == Some(n as char));
    assert(!a.contains(';')) by {
        assert forall|i: int| 0 <= i < a.len() implies a[i] != ';' by {
            if i > 0 {
                assert(d.contains(d[i - 1]));
            }
        }
    }
    lemma_entity(a, n as char, rest);
    assert("&#"@ + d + seq![';'] + rest =~= seq!['&'] + a + seq![';'] + rest);
    let h = hex_text(n);
    assert(h.len() <= 8);
    lemma_hexed(n, 'x', rest);
    lemma_hexed(n, 'X', rest);
    assert("&#x"@ + h + seq![';'] + rest =~= seq!['&'] + (seq!['#', 'x'] + h) + seq![';'] + rest);
    assert("&#X"@ + h + seq![';'] + rest =~= seq!['&'] + (seq!['#', 'X'] + h) + seq![';'] + rest);
}

#[verifier::spinoff_prover]
#[verifier::rlimit(40)]
proof fn lemma_hexed(n: nat, x: char, rest: Seq<char>)
    requires
        n < 0xd800 || 0xe000 <= n <= 0x10ffff,
        x == 'x' || x == 'X',
        hex_text(n).len() <= 8,
    ensures
        entities(seq!['&'] + (seq!['#', x] + hex_text(n)) + seq![';'] + rest) == seq![n as char]
            + entities(rest),
{
    reveal_strlit("#x");
    reveal_strlit("#X");
    reveal_strlit("amp");
    reveal_strlit("lt");
    reveal_strlit("gt");
    reveal_strlit("quot");
    reveal_strlit("apos");
    reveal_strlit("nbsp");
    lemma_hex_value(n);
    let h = hex_text(n);
    let b = seq!['#', x] + h;
    assert(b[0] == '#');
    assert(b.subrange(0, 2) =~= seq!['#', x]);
    assert("#x"@ =~= seq!['#', 'x']);
    assert("#X"@ =~= seq!['#', 'X']);
    assert(b.skip(2) =~= h);
    assert(b != "amp"@ && b != "lt"@ && b != "gt"@ && b != "quot"@ && b != "apos"@ && b
        != "nbsp"@);
    assert(number(h, 16) == Some(n as int));
    assert(entity_char(b) == Some(n as char));
    assert forall|i: int| 0 <= i < b.len() implies b[i] != ';' by {
        if i > 1 {
            assert(h.contains(h[i - 2]));
        }
    }
    lemma_entity(b, n as char, rest);
}

/// Whether a name is that of a line or a rule.
pub open spec fn names_a_break(name: Seq<char>) -> bool {
    name == "br"@ || name == "hr"@
}

/// Whether a name is that of a block.
pub open spec fn names_a_block(name: Seq<char>) -> bool {
    ||| name == "p"@
    ||| name == "div"@
    ||| name == "li"@
    ||| name == "tr"@
    ||| name == "ul"@
    ||| name == "ol"@
    ||| name == "blockquote"@
    ||| name == "table"@
    ||| name == "h1"@
    ||| name == "h2"@
    ||| name == "h3"@
    ||| name == "h4"@
    ||| name == "h5"@
    ||| name == "h6"@
}

/// A break is a line break however it is written, and so is the end of a block;
/// the start of a block, and any other tag, is none. Letter case and what stands
/// behind the name make no difference.
pub proof fn tags_break_lines_by_their_name(name: Seq<char>, rest: Seq<char>)
    requires
        name.len() > 0,
        forall|i: int| 0 <= i < name.len() ==> !ends_name(#[trigger] name[i]),
        rest.len() == 0 || rest[0] == ' ' || rest[0] == '\t' || rest[0] == '\n' || rest[0] == '/',
    ensures
        breaks_line(name + rest) == names_a_break(ascii_lowered(name)),
        breaks_line(seq!['/'] + name + rest) == (names_a_break(ascii_lowered(name))
            || names_a_block(ascii_lowered(name))),
{
    let tag = name + rest;
    let n = name.len() as int;
    assert(!ends_name(name[0]));
    assert(tag[0] == name[0]);
    assert forall|i: int| 0 <= i < n implies !ends_name(#[trigger] tag[i]) by {
        assert(tag[i] == name[i]);
    }
    if rest.len() > 0 {
        assert(tag[n] == rest[0]);
    }
    lemma_name_end(tag, 0, n);
    assert(tag.take(n) =~= name);
    assert(tag_name(tag) == ascii_lowered(name));
    let closing = seq!['/'] + name + rest;
    assert(closing.skip(1) =~= tag);
    assert(tag_name(closing) == tag_name(tag));
}

proof fn lemma_name_end(tag: Seq<char>, from: int, n: int)
    requires
        0 <= from <= n <= tag.len(),
        forall|i: int| from <= i < n ==> !ends_name(#[trigger] tag[i]),
        n < tag.len() ==> ends_name(tag[n]),
    ensures
        name_end(tag, from) == n,
    decreases n - from,
{
    if from < n {
        lemma_name_end(tag, from + 1, n);
    }
}

/// A tag leaves nothing, or a line break, and the text on both sides of it
/// stays.
pub proof fn tags_are_taken_out(a: Seq<char>, tag: Seq<char>, b: Seq<char>)
    requires
        !a.contains('<'),
        !tag.contains('>'),
    ensures
        untagged(a + seq!['<'] + tag + seq!['>'] + b) == entities(a) + (if breaks_line(tag) {
            seq!['\n']
        } else {
            Seq::<char>::empty()
        }) + untagged(b),
{
    let s = a + seq!['<'] + tag + seq!['>'] + b;
    let open = a.len() as int;
    let close = open + 1 + tag.len();
    assert(s[open] == '<' && s[close] == '>');
    assert forall|j: int| 0 <= j < open implies s[j] != '<' by {
        assert(a.contains(a[j]));
    }
    assert forall|j: int| open <= j < close implies s[j] != '>' by {
        if j > open {
            assert(s[j] == tag[j - open - 1]);
            assert(tag.contains(tag[j - open - 1]));
        }
    }
    lemma_next_char_is(s, '<', 0, open);
    lemma_next_char_is(s, '>', open, close);
    assert(s.take(open) =~= a);
    assert(s.subrange(open + 1, close) =~= tag);
    assert(s.skip(close + 1) =~= b);
    assert(untagged(s) =~= entities(a) + (if breaks_line(tag) {
        seq!['\n']
    } else {
        Seq::<char>::empty()
    }) + untagged(b));
}

/// An element that is dropped leaves nothing, from its opening to the end of its
/// closing tag, in whatever letter case; what stands around it stays.
#[verifier::spinoff_prover]
#[verifier::rlimit(40)]
pub proof fn dropped_elements_leave_nothing(
    a: Seq<char>,
    element: Seq<char>,
    open: Seq<char>,
    inside: Seq<char>,
    close: Seq<char>,
    b: Seq<char>,
)
    requires
        element.len() > 0,
        element[0] != '/',
        !element.contains('<'),
        !element.contains('>'),
        !a.contains('<'),
        ascii_lowered(open) == seq!['<'] + element,
        ascii_lowered(close) == "</"@ + element,
        !inside.contains('<'),
    ensures
        without_element(a + open + inside + close + seq!['>'] + b, element) == a + without_element(
            b,
            element,
        ),
{
    reveal_strlit("</");
    let html = a + open + inside + close + seq!['>'] + b;
    let lower = ascii_lowered(html);
    let start = a.len() as int;
    let p = seq!['<'] + element;
    let q = "</"@ + element;
    assert(open.len() == p.len()) by {
        assert(ascii_lowered(open).len() == open.len());
    }
    assert(close.len() == q.len()) by {
        assert(ascii_lowered(close).len() == close.len());
    }
    assert(lower.subrange(start, start + p.len()) =~= p) by {
        assert forall|i: int| 0 <= i < p.len() implies lower[start + i] == p[i] by {
            assert(html[start + i] == open[i]);
            assert(ascii_lowered(open)[i] == p[i]);
        }
    }
    assert forall|j: int| 0 <= j < start implies !#[trigger] matches_at(lower, p, j) by {
        if matches_at(lower, p, j) {
            assert(lower.subrange(j, j + p.len())[0] == lower[j]);
            assert(lower[j] == ascii_lower(html[j]));
            assert(html[j] == a[j]);
            assert(a.contains(a[j]));
        }
    }
    lemma_find_is(lower, p, start);
    let here = lower.skip(start);
    let at = open.len() as int + inside.len();
    assert(here.subrange(at, at + q.len()) =~= q) by {
        assert forall|i: int| 0 <= i < q.len() implies here[at + i] == q[i] by {
            assert(html[start + at + i] == close[i]);
            assert(ascii_lowered(close)[i] == q[i]);
        }
    }
    assert forall|j: int| 0 <= j < at implies !#[trigger] matches_at(here, q, j) by {
        if matches_at(here, q, j) {
            assert(here.subrange(j, j + q.len())[0] == here[j]);
            assert(here.subrange(j, j + q.len())[1] == here[j + 1]);
            assert(here[j] == ascii_lower(html[start + j]));
            if j < open.len() {
                assert(html[start + j] == open[j]);
                assert(ascii_lowered(open)[j] == p[j]);
                if j == 0 {
                    assert(here[1] == p[1]) by {
                        assert(html[start + 1] == open[1]);
                        assert(ascii_lowered(open)[1] == p[1]);
                    }
                } else {
                    assert(p[j] == element[j - 1]);
                    assert(element.contains(element[j - 1]));
                }
            } else {
                assert(html[start + j] == inside[j - open.len()]);
                assert(inside.contains(inside[j - open.len()]));
            }
        }
    }
    lemma_find_is(here, q, at);
    let end = start + at + close.len();
    assert(html[end] == '>');
    assert forall|j: int| start + at <= j < end implies html[j] != '>' by {
        let i = j - start - at;
        assert(html[j] == close[i]);
        assert(ascii_lowered(close)[i] == q[i]);
        assert(ascii_lowered(close)[i] == ascii_lower(close[i]));
        if i >= 2 {
            assert(q[i] == element[i - 2]);
            assert(element.contains(element[i - 2]));
        }
    }
    lemma_next_char_is(html, '>', start + at, end);
    assert(html.take(start) =~= a);
    assert(html.skip(end + 1) =~= b);
}

/// Whether all rows are blank.
pub open spec fn all_blank(rows: Seq<Seq<char>>) -> bool {
    forall|i: int| 0 <= i < rows.len() ==> trim(#[trigger] rows[i]).len() == 0
}

/// Blank rows at the end leave nothing.
pub proof fn blank_rows_at_the_end_go(rows: Seq<Seq<char>>, blanks: Seq<Seq<char>>)
    requires
        all_blank(blanks),
    ensures
        tidy_rows(rows + blanks) == tidy_rows(rows),
    decreases blanks.len(),
{
    if blanks.len() == 0 {
        assert(rows + blanks =~= rows);
    } else {
        let rest = blanks.drop_last();
        assert forall|i: int| 0 <= i < rest.len() implies trim(#[trigger] rest[i]).len() == 0 by {
            assert(rest[i] == blanks[i]);
        }
        blank_rows_at_the_end_go(rows, rest);
        assert((rows + blanks).drop_last() =~= rows + rest);
        assert((rows + blanks).last() == blanks[blanks.len() - 1]);
    }
}

/// Rows with ink stand on lines of their own, trimmed: one below the other where
/// they were neighbours, with one blank line between them where any stood there.
pub proof fn rows_with_ink_stand_on_lines(
    rows: Seq<Seq<char>>,
    x: Seq<char>,
    blanks: Seq<Seq<char>>,
    y: Seq<char>,
)
    requires
        trim(x).len() > 0,
        trim(y).len() > 0,
        all_blank(blanks),
    ensures
        all_blank(rows) ==> tidy_rows(rows.push(x)) == trim(x),
        tidy_rows((rows.push(x) + blanks).push(y)) == tidy_rows(rows.push(x)) + (if blanks.len()
            > 0 {
            seq!['\n', '\n']
        } else {
            seq!['\n']
        }) + trim(y),
{
    let above = rows.push(x) + blanks;
    let all = above.push(y);
    assert(all.drop_last() =~= above);
    blank_rows_at_the_end_go(rows.push(x), blanks);
    assert(rows.push(x).drop_last() =~= rows);
    assert(tidy_rows(rows.push(x)).len() > 0);
    if blanks.len() > 0 {
        assert(above.last() == blanks[blanks.len() - 1]);
    } else {
        assert(above =~= rows.push(x));
    }
    if all_blank(rows) {
        let none = Seq::<Seq<char>>::empty();
        blank_rows_at_the_end_go(none, rows);
        assert(none + rows =~= rows);
        assert(tidy_rows(none).len() == 0);
    }
}

/// A script or a style sheet, and all that stands in it, leaves nothing of itself
/// in the text.
#[verifier::spinoff_prover]
pub proof fn scripts_and_styles_leave_nothing(a: Seq<char>, inside: Seq<char>, b: Seq<char>)
    requires
        !a.contains('<') && !a.contains('&') && !a.contains('\n'),
        !b.contains('<') && !b.contains('&') && !b.contains('\n'),
        !inside.contains('<'),
        trim(a + b) == a + b,
    ensures
        plain_text(a + "<script>"@ + inside + "</script>"@ + b) == a + b,
        plain_text(a + "<style>"@ + inside + "</style>"@ + b) == a + b,
{
    reveal_strlit("<script>");
    reveal_strlit("</script>");
    reveal_strlit("<style>");
    reveal_strlit("</style>");
    reveal_strlit("script");
    reveal_strlit("style");
    reveal_strlit("</");
    let rest = seq!['>'] + inside;
    assert(!rest.contains('<')) by {
        assert forall|i: int| 0 <= i < rest.len() implies rest[i] != '<' by {
            if i > 0 {
                assert(inside.contains(inside[i - 1]));
            }
        }
    }
    assert(!(a + b).contains('<') && !(a + b).contains('&') && !(a + b).contains('\n')) by {
        assert forall|i: int| 0 <= i < (a + b).len() implies (a + b)[i] != '<' && (a + b)[i] != '&'
            && (a + b)[i] != '\n' by {
            if i < a.len() {
                assert(a.contains(a[i]));
            } else {
                assert(b.contains(b[i - a.len()]));
            }
        }
    }
    crate::html::plain_lines_stay(a + b);
    lemma_stays(a + b, "script"@);
    lemma_stays(a + b, "style"@);
    lemma_stays(b, "script"@);
    lemma_stays(b, "style"@);
    let s1 = a + "<script>"@ + inside + "</script>"@ + b;
    let o1 = seq!['<'] + "script"@;
    let c1 = "</"@ + "script"@;
    lemma_small(o1);
    lemma_small(c1);
    assert(s1 =~= a + o1 + rest + c1 + seq!['>'] + b);
    dropped_elements_leave_nothing(a, "script"@, o1, rest, c1, b);
    let s2 = a + "<style>"@ + inside + "</style>"@ + b;
    let o2 = seq!['<'] + "style"@;
    let c2 = "</"@ + "style"@;
    lemma_small(o2);
    lemma_small(c2);
    assert(s2 =~= a + o2 + rest + c2 + seq!['>'] + b);
    dropped_elements_leave_nothing(a, "style"@, o2, rest, c2, b);
    // No script opens in the text with a style sheet.
    let lower = ascii_lowered(s2);
    assert forall|j: int| !#[trigger] matches_at(lower, o1, j) by {
        if matches_at(lower, o1, j) {
            assert(lower.subrange(j, j + o1.len())[0] == lower[j]);
            assert(lower.subrange(j, j + o1.len())[1] == lower[j + 1]);
            assert(lower.subrange(j, j + o1.len())[2] == lower[j + 2]);
            assert(lower[j] == ascii_lower(s2[j]));
            assert(s2[j] == '<');
            let n = a.len() as int;
            let m = n + 7 + inside.len();
            if j < n {
                assert(a.contains(a[j]));
            } else if j == n {
                assert(s2[j + 2] == 't');
                assert(lower[j + 2] == ascii_lower(s2[j + 2]));
            } else if n + 7 <= j < m {
                assert(s2[j] == inside[j - n - 7]);
                assert(inside.contains(inside[j - n - 7]));
            } else if j == m {
                assert(s2[j + 1] == '/');
                assert(lower[j + 1] == ascii_lower(s2[j + 1]));
            } else if j >= m + 8 {
                assert(s2[j] == b[j - m - 8]);
                assert(b.contains(b[j - m - 8]));
            }
        }
    }
    lemma_find_from(lower, o1, 0);
    assert(find(lower, o1) is None);
    assert(without_element(s2, "script"@) == s2);
}

/// A text without an opening bracket holds no element.
proof fn lemma_stays(s: Seq<char>, element: Seq<char>)
    requires
        !s.contains('<'),
    ensures
        without_element(s, element) == s,
{
    let lower = ascii_lowered(s);
    let open = seq!['<'] + element;
    lemma_find_from(lower, open, 0);
    if find(lower, open) is Some {
        let at = find(lower, open)->0;
        assert(lower.subrange(at, at + open.len())[0] == open[0]);
        assert(lower[at] == ascii_lower(s[at]));
        assert(s.contains(s[at]));
    }
}

/// A text without capital letters.
proof fn lemma_small(s: Seq<char>)
    requires
        forall|i: int| 0 <= i < s.len() ==> #[trigger] s[i] < 'A' || s[i] > 'Z',
    ensures
        ascii_lowered(s) == s,
{
    assert(ascii_lowered(s) =~= s);
}

/// Paragraphs, and what a break parts, stand on lines of their own.
#[verifier::spinoff_prover]
pub proof fn paragraphs_stand_on_lines(a: Seq<char>, b: Seq<char>)
    requires
        !a.contains('<') && !a.contains('&') && !a.contains('\n') && !a.contains('\r'),
        !b.contains('<') && !b.contains('&') && !b.contains('\n') && !b.contains('\r'),
        a.len() > 0 && trim(a) == a,
        b.len() > 0 && trim(b) == b,
    ensures
        untagged("<p>"@ + a + "</p><p>"@ + b + "</p>"@) == a + seq!['\n'] + b + seq!['\n'],
        untagged(a + "<br>"@ + b) == a + seq!['\n'] + b,
        untagged(a + "<b>"@ + b + "</b>"@) == a + b,
{
    reveal_strlit("<p>");
    reveal_strlit("</p><p>");
    reveal_strlit("</p>");
    reveal_strlit("<br>");
    reveal_strlit("<b>");
    reveal_strlit("</b>");
    reveal_strlit("p");
    reveal_strlit("br");
    reveal_strlit("hr");
    reveal_strlit("div");
    reveal_strlit("li");
    reveal_strlit("tr");
    reveal_strlit("ul");
    reveal_strlit("ol");
    reveal_strlit("blockquote");
    reveal_strlit("table");
    reveal_strlit("h1");
    reveal_strlit("h2");
    reveal_strlit("h3");
    reveal_strlit("h4");
    reveal_strlit("h5");
    reveal_strlit("h6");
    let none = Seq::<char>::empty();
    lemma_plain(a);
    lemma_plain(b);
    lemma_plain(none);
    let p = seq!['p'];
    let br = seq!['b', 'r'];
    let bold = seq!['b'];
    lemma_small(p);
    lemma_small(br);
    lemma_small(bold);
    assert(p =~= "p"@ && br =~= "br"@);
    assert(p != "br"@ && p != "hr"@);
    tags_break_lines_by_their_name(p, none);
    tags_break_lines_by_their_name(br, none);
    tags_break_lines_by_their_name(bold, none);
    assert(p + none =~= p && br + none =~= br && bold + none =~= bold);
    let cp = seq!['/'] + p;
    let cb = seq!['/'] + bold;
    assert(cp + none =~= cp && cb + none =~= cb);
    // The paragraphs.
    tags_are_taken_out(b, cp, none);
    let t3 = b + seq!['<'] + cp + seq!['>'] + none;
    tags_are_taken_out(none, p, t3);
    let t2 = none + seq!['<'] + p + seq!['>'] + t3;
    tags_are_taken_out(a, cp, t2);
    let t1 = a + seq!['<'] + cp + seq!['>'] + t2;
    tags_are_taken_out(none, p, t1);
    let t0 = none + seq!['<'] + p + seq!['>'] + t1;
    assert("<p>"@ + a + "</p><p>"@ + b + "</p>"@ =~= t0);
    assert(untagged(t0) =~= a + seq!['\n'] + b + seq!['\n']);
    // The break.
    tags_are_taken_out(a, br, b);
    assert(a + "<br>"@ + b =~= a + seq!['<'] + br + seq!['>'] + b);
    // The tag that breaks no line.
    tags_are_taken_out(b, cb, none);
    let u = b + seq!['<'] + cb + seq!['>'] + none;
    tags_are_taken_out(a, bold, u);
    assert(a + "<b>"@ + b + "</b>"@ =~= a + seq!['<'] + bold + seq!['>'] + u);
    assert(untagged(u) =~= b);
    assert(a + none + b =~= a + b);
}

/// A text without tags and entities stays.
proof fn lemma_plain(s: Seq<char>)
    requires
        !s.contains('<'),
        !s.contains('&'),
    ensures
        entities(s) == s,
        untagged(s) == s,
{
    lemma_next_char(s, '<', 0);
    lemma_next_char(s, '&', 0);
}

/// A tag that does not end, and an element that is not closed, take all that
/// follows with them.
#[verifier::spinoff_prover]
#[verifier::rlimit(40)]
pub proof fn what_does_not_end_takes_the_rest(
    a: Seq<char>,
    b: Seq<char>,
    element: Seq<char>,
    open: Seq<char>,
)
    requires
        !a.contains('<'),
        !b.contains('<') && !b.contains('>'),
        ascii_lowered(open) == seq!['<'] + element,
        element.len() > 0,
        !element.contains('/'),
        !element.contains('<'),
    ensures
        untagged(a + seq!['<'] + b) == entities(a),
        without_element(a + open + b, element) == a,
{
    let s = a + seq!['<'] + b;
    let n = a.len() as int;
    assert(s[n] == '<');
    assert forall|j: int| 0 <= j < n implies s[j] != '<' by {
        assert(a.contains(a[j]));
    }
    lemma_next_char_is(s, '<', 0, n);
    assert forall|j: int| n <= j < s.len() implies s[j] != '>' by {
        if j > n {
            assert(s[j] == b[j - n - 1]);
            assert(b.contains(b[j - n - 1]));
        }
    }
    lemma_next_char_is(s, '>', n, s.len() as int);
    assert(s.take(n) =~= a);
    assert(untagged(s) =~= entities(a));
    reveal_strlit("</");
    let html = a + open + b;
    let lower = ascii_lowered(html);
    let p = seq!['<'] + element;
    let q = "</"@ + element;
    assert(open.len() == p.len()) by {
        assert(ascii_lowered(open).len() == open.len());
    }
    assert(lower.subrange(n, n + p.len()) =~= p) by {
        assert forall|i: int| 0 <= i < p.len() implies lower[n + i] == p[i] by {
            assert(html[n + i] == open[i]);
            assert(ascii_lowered(open)[i] == p[i]);
        }
    }
    assert forall|j: int| 0 <= j < n implies !#[trigger] matches_at(lower, p, j) by {
        if matches_at(lower, p, j) {
            assert(lower.subrange(j, j + p.len())[0] == lower[j]);
            assert(lower[j] == ascii_lower(html[j]));
            assert(a.contains(a[j]));
        }
    }
    lemma_find_is(lower, p, n);
    let here = lower.skip(n);
    assert forall|j: int| !#[trigger] matches_at(here, q, j) by {
        if matches_at(here, q, j) {
            assert(here.subrange(j, j + q.len())[0] == here[j]);
            assert(here.subrange(j, j + q.len())[1] == here[j + 1]);
            assert(here[j] == ascii_lower(html[n + j]));
            assert(here[j + 1] == ascii_lower(html[n + j + 1]));
            if j == 0 {
                assert(html[n + 1] == open[1]);
                assert(ascii_lowered(open)[1] == p[1]);
                assert(p[1] == element[0]);
                assert(element.contains(element[0]));
            } else if j < open.len() {
                assert(html[n + j] == open[j]);
                assert(ascii_lowered(open)[j] == p[j]);
                assert(p[j] == element[j - 1]);
                assert(element.contains(element[j - 1]));
            } else {
                assert(html[n + j] == b[j - open.len()]);
                assert(b.contains(b[j - open.len()]));
            }
        }
    }
    lemma_find_from(here, q, 0);
    assert(find(here, q) is None);
    assert(html.take(n) =~= a);
    assert(without_element(html, element) =~= a);
}

/// An ampersand without a semicolon anywhere behind it stays, and a space that
/// does not break is a space.
#[verifier::spinoff_prover]
#[verifier::rlimit(40)]
pub proof fn lone_ampersands_stay(b: Seq<char>)
    ensures
        !b.contains(';') ==> entities(seq!['&'] + b) == seq!['&'] + entities(b),
        entities("&nbsp;"@ + b) == seq![' '] + entities(b),
{
    let s = seq!['&'] + b;
    lemma_next_char_is(s, '&', 0, 0);
    assert(s.skip(0) =~= s);
    assert(s.skip(1) =~= b);
    assert(s.take(0) =~= Seq::<char>::empty());
    if !b.contains(';') {
        lemma_next_char(s, ';', 0);
        let end = next_char(s, ';', 0);
        if end < s.len() {
            assert(s[end] == b[end - 1]);
            assert(b.contains(b[end - 1]));
        }
        assert(leading_entity(s) is None);
        assert(entities(s) =~= seq!['&'] + entities(b));
    }
    reveal_strlit("&nbsp;");
    reveal_strlit("nbsp");
    reveal_strlit("amp");
    reveal_strlit("lt");
    reveal_strlit("gt");
    reveal_strlit("quot");
    reveal_strlit("apos");
    assert("nbsp"@[0] == 'n' && "apos"@[0] == 'a' && "quot"@[0] == 'q');
    lemma_entity("nbsp"@, ' ', b);
    assert("&nbsp;"@ + b =~= seq!['&'] + "nbsp"@ + seq![';'] + b);
}

} // verus!
