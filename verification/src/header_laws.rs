//! What holds of encoded headers and bodies: what was encoded reads back, and
//! padding makes no difference.

use vstd::prelude::*;
use vstd::utf8::encode_utf8;
use crate::format::ascii_lowered;
use crate::gmail_google::big_hex;
use crate::digest::hex_digit;
use crate::lines::lemma_next_char_is;
use crate::marker_laws::lemma_find_is;
use crate::mime::{
    base64_standard, body_data, encoded_word, hex_value, latin1, q_bytes, trim_end_char, unworded,
    utf8_lossy, word_bytes, word_cuts, word_text,
};
use crate::text::{all_white, begins, find_from, lemma_find_from, matches_at};

verus! {

/// A byte as quoted text holds it: a letter or a digit stays, a space is an
/// underscore, any other is an equals sign and two hexadecimal digits, in small
/// or in capital letters.
pub open spec fn quoted_byte(b: u8, small: bool) -> Seq<u8> {
    if 48 <= b <= 57 || 65 <= b <= 90 || 97 <= b <= 122 {
        seq![b]
    } else if b == 32 {
        seq![95u8]
    } else if small {
        seq![61u8, hex_digit(b as int / 16) as u8, hex_digit(b as int % 16) as u8]
    } else {
        seq![61u8, big_hex(b as int / 16) as u8, big_hex(b as int % 16) as u8]
    }
}

/// Bytes as quoted text holds them.
pub open spec fn quoted(bytes: Seq<u8>, small: bool) -> Seq<u8>
    decreases bytes.len(),
{
    if bytes.len() == 0 {
        Seq::empty()
    } else {
        quoted_byte(bytes[0], small) + quoted(bytes.skip(1), small)
    }
}

/// Quoted bytes read back, one for one.
pub proof fn quoted_bytes_read_back(bytes: Seq<u8>, small: bool)
    ensures
        q_bytes(quoted(bytes, small)) == bytes,
    decreases bytes.len(),
{
    if bytes.len() == 0 {
        assert(q_bytes(Seq::empty()) =~= bytes);
    } else {
        let b = bytes[0];
        let rest = quoted(bytes.skip(1), small);
        let s = quoted(bytes, small);
        quoted_bytes_read_back(bytes.skip(1), small);
        if quoted_byte(b, small).len() == 1 {
            assert(s.skip(1) =~= rest);
        } else {
            assert(s.skip(3) =~= rest);
            assert(s[0] == 61 && s.len() >= 3);
            let h = b as int / 16;
            let l = b as int % 16;
            assert(0 <= h < 16 && 0 <= l < 16);
            assert(hex_value(s[1]) == h && hex_value(s[2]) == l);
            assert(16 * h + l == b);
        }
        assert(q_bytes(s) =~= seq![b] + bytes.skip(1));
        assert(seq![b] + bytes.skip(1) =~= bytes);
    }
}

/// Any other byte than a space's, an underscore and an equals sign stands for
/// itself in quoted text.
pub proof fn plain_bytes_stand_for_themselves(b: u8, rest: Seq<u8>)
    requires
        b != 95,
        b != 61,
    ensures
        q_bytes(seq![b] + rest) == seq![b] + q_bytes(rest),
{
    let s = seq![b] + rest;
    assert(s.skip(1) =~= rest);
}

/// Padding makes no difference to a body.
pub proof fn padding_makes_no_difference(data: Seq<char>, n: nat)
    ensures
        body_data(data + Seq::new(n, |i: int| '=')) == body_data(data),
        word_bytes(seq!['B'], data + Seq::new(n, |i: int| '=')) == word_bytes(seq!['B'], data),
        word_bytes(seq!['b'], data + Seq::new(n, |i: int| '=')) == word_bytes(seq!['B'], data),
    decreases n,
{
    let pad = Seq::new(n, |i: int| '=');
    if n == 0 {
        assert(data + pad =~= data);
    } else {
        let less = Seq::new((n - 1) as nat, |i: int| '=');
        padding_makes_no_difference(data, (n - 1) as nat);
        assert((data + pad).drop_last() =~= data + less);
        assert((data + pad).last() == '=');
        assert(trim_end_char(data + pad, '=') == trim_end_char(data + less, '='));
    }
}

/// Only the padding goes: what is decoded of a body ends in another character,
/// and is the body without equals signs at its end.
pub proof fn only_the_padding_goes(data: Seq<char>)
    ensures
        ({
            let t = trim_end_char(data, '=');
            &&& t.len() <= data.len()
            &&& t == data.take(t.len() as int)
            &&& t.len() > 0 ==> t.last() != '='
            &&& forall|i: int| t.len() <= i < data.len() ==> #[trigger] data[i] == '='
        }),
    decreases data.len(),
{
    if data.len() > 0 && data.last() == '=' {
        let rest = data.drop_last();
        only_the_padding_goes(rest);
        let t = trim_end_char(data, '=');
        assert(t == rest.take(t.len() as int));
        assert(t =~= data.take(t.len() as int));
        assert forall|i: int| t.len() <= i < data.len() implies #[trigger] data[i] == '=' by {
            if i < rest.len() {
                assert(rest[i] == data[i]);
            }
        }
    } else {
        assert(data.take(data.len() as int) =~= data);
    }
}

/// An encoded word, as a header holds it.
pub open spec fn word(charset: Seq<char>, encoding: Seq<char>, payload: Seq<char>) -> Seq<char> {
    "=?"@ + charset + seq!['?'] + encoding + seq!['?'] + payload + "?="@
}

/// An encoded word is cut at its question marks.
#[verifier::spinoff_prover]
proof fn lemma_cuts(
    charset: Seq<char>,
    encoding: Seq<char>,
    payload: Seq<char>,
    rest: Seq<char>,
)
    requires
        !charset.contains('?'),
        !encoding.contains('?'),
        !payload.contains('?'),
    ensures
        ({
            let text = word(charset, encoding, payload) + rest;
            let a = 2 + charset.len() as int;
            let b = a + 1 + encoding.len();
            let c = b + 1 + payload.len();
            &&& word_cuts(text) == Some((a, b, c))
            &&& text.subrange(2, a) == charset
            &&& text.subrange(a + 1, b) == encoding
            &&& text.subrange(b + 1, c) == payload
            &&& c + 2 == word(charset, encoding, payload).len()
        }),
{
    reveal_strlit("=?");
    reveal_strlit("?=");
    let text = word(charset, encoding, payload) + rest;
    let a = 2 + charset.len() as int;
    let b = a + 1 + encoding.len();
    let c = b + 1 + payload.len();
    assert(text.subrange(0, 2) =~= "=?"@);
    assert(text[a] == '?');
    assert(text[b] == '?');
    assert forall|j: int| 2 <= j < a implies text[j] != '?' by {
        assert(text[j] == charset[j - 2]);
        assert(charset.contains(charset[j - 2]));
    }
    lemma_next_char_is(text, '?', 2, a);
    assert forall|j: int| a + 1 <= j < b implies text[j] != '?' by {
        assert(text[j] == encoding[j - a - 1]);
        assert(encoding.contains(encoding[j - a - 1]));
    }
    lemma_next_char_is(text, '?', a + 1, b);
    assert(text.subrange(c, c + 2) =~= "?="@);
    assert forall|j: int| b + 1 <= j < c implies !#[trigger] matches_at(text, "?="@, j) by {
        if matches_at(text, "?="@, j) {
            assert(text.subrange(j, j + 2)[0] == text[j]);
            assert(text[j] == payload[j - b - 1]);
            assert(payload.contains(payload[j - b - 1]));
        }
    }
    lemma_find_from(text, "?="@, b + 1);
    if find_from(text, "?="@, b + 1) is None {
        assert(!matches_at(text, "?="@, c));
    } else {
        let k = find_from(text, "?="@, b + 1)->0;
        if c < k {
            assert(!matches_at(text, "?="@, c));
        } else if k < c {
            assert(!matches_at(text, "?="@, k));
        }
    }
    assert(text.subrange(2, a) =~= charset);
    assert(text.subrange(a + 1, b) =~= encoding);
    assert(text.subrange(b + 1, c) =~= payload);
}

/// The letter of an encoding.
proof fn lemma_letters(e: char)
    ensures
        !seq![e].contains('?') || e == '?',
        seq![e] == seq!['B'] <==> e == 'B',
        seq![e] == seq!['b'] <==> e == 'b',
        seq![e] == seq!['Q'] <==> e == 'Q',
        seq![e] == seq!['q'] <==> e == 'q',
{
    assert(seq![e][0] == e);
    assert(seq!['B'][0] == 'B' && seq!['b'][0] == 'b' && seq!['Q'][0] == 'Q' && seq!['q'][0]
        == 'q');
}

/// An encoded word is read whole.
#[verifier::spinoff_prover]
proof fn lemma_word(
    charset: Seq<char>,
    e: char,
    payload: Seq<char>,
    rest: Seq<char>,
    bytes: Seq<u8>,
)
    requires
        !charset.contains('?'),
        e != '?',
        !payload.contains('?'),
        word_bytes(seq![e], payload) == Some(bytes),
    ensures
        ({
            let w = word(charset, seq![e], payload);
            &&& encoded_word(w + rest) == Some((word_text(charset, bytes), w.len() as int))
            &&& 0 < w.len() <= (w + rest).len()
            &&& (w + rest).skip(w.len() as int) == rest
            &&& begins(w + rest, "=?"@)
        }),
{
    reveal_strlit("=?");
    lemma_letters(e);
    lemma_cuts(charset, seq![e], payload, rest);
    let w = word(charset, seq![e], payload);
    assert((w + rest).skip(w.len() as int) =~= rest);
    assert((w + rest).subrange(0, 2) =~= "=?"@);
}

/// A quoted word reads as the text that its bytes are in its character set,
/// whatever stands around it.
#[verifier::spinoff_prover]
pub proof fn quoted_words_are_read(
    front: Seq<char>,
    charset: Seq<char>,
    q: char,
    payload: Seq<char>,
    rest: Seq<char>,
)
    requires
        !front.contains('='),
        !charset.contains('?'),
        q == 'Q' || q == 'q',
        !payload.contains('?'),
    ensures
        unworded(front + word(charset, seq![q], payload) + rest, false) == front + (
        if ascii_lowered(charset) == ascii_lowered("iso-8859-1"@) {
            latin1(q_bytes(encode_utf8(payload)))
        } else {
            utf8_lossy(q_bytes(encode_utf8(payload)))
        }) + unworded(rest, true),
{
    lemma_letters(q);
    let bytes = q_bytes(encode_utf8(payload));
    lemma_word(charset, q, payload, rest, bytes);
    let here = word(charset, seq![q], payload) + rest;
    let text = word_text(charset, bytes);
    lemma_word_read(front, here, rest, text, word(charset, seq![q], payload).len() as int, false);
    assert(front + word(charset, seq![q], payload) + rest =~= front + here);
}

/// A word in base 64 reads as the text that its bytes are in its character set.
#[verifier::spinoff_prover]
pub proof fn encoded_words_are_read(
    front: Seq<char>,
    charset: Seq<char>,
    b: char,
    payload: Seq<char>,
    rest: Seq<char>,
)
    requires
        !front.contains('='),
        !charset.contains('?'),
        b == 'B' || b == 'b',
        !payload.contains('?'),
        base64_standard(trim_end_char(payload, '=')) is Some,
    ensures
        ({
            let bytes = base64_standard(trim_end_char(payload, '='))->0;
            unworded(front + word(charset, seq![b], payload) + rest, false) == front + (
            if ascii_lowered(charset) == ascii_lowered("iso-8859-1"@) {
                latin1(bytes)
            } else {
                utf8_lossy(bytes)
            }) + unworded(rest, true)
        }),
{
    lemma_letters(b);
    let bytes = base64_standard(trim_end_char(payload, '='))->0;
    lemma_word(charset, b, payload, rest, bytes);
    let here = word(charset, seq![b], payload) + rest;
    let text = word_text(charset, bytes);
    lemma_word_read(front, here, rest, text, word(charset, seq![b], payload).len() as int, false);
    assert(front + word(charset, seq![b], payload) + rest =~= front + here);
}

proof fn lemma_word_read(
    front: Seq<char>,
    here: Seq<char>,
    rest: Seq<char>,
    text: Seq<char>,
    n: int,
    after_word: bool,
)
    requires
        !front.contains('='),
        begins(here, "=?"@),
        encoded_word(here) == Some((text, n)),
        0 < n <= here.len(),
        here.skip(n) == rest,
    ensures
        unworded(front + here, after_word) == (if after_word && all_white(front) {
            Seq::<char>::empty()
        } else {
            front
        }) + text + unworded(rest, true),
{
    reveal_strlit("=?");
    let all = front + here;
    let k = front.len() as int;
    assert(all.subrange(k, k + 2) =~= here.subrange(0, 2));
    assert forall|j: int| 0 <= j < k implies !#[trigger] matches_at(all, "=?"@, j) by {
        if matches_at(all, "=?"@, j) {
            assert(all.subrange(j, j + 2)[0] == all[j]);
            assert(front.contains(front[j]));
        }
    }
    lemma_find_is(all, "=?"@, k);
    assert(all.take(k) =~= front);
    assert(all.skip(k) =~= here);
}

/// White space between two encoded words is no part of the text; any other text
/// between them is.
#[verifier::spinoff_prover]
pub proof fn gaps_between_words_close(
    charset: Seq<char>,
    first: Seq<char>,
    gap: Seq<char>,
    second: Seq<char>,
    rest: Seq<char>,
)
    requires
        !charset.contains('?'),
        !first.contains('?'),
        !second.contains('?'),
        !gap.contains('='),
        ascii_lowered(charset) != ascii_lowered("iso-8859-1"@),
    ensures
        unworded(
            word(charset, seq!['Q'], first) + gap + word(charset, seq!['Q'], second) + rest,
            false,
        ) == utf8_lossy(q_bytes(encode_utf8(first))) + (if all_white(gap) {
            Seq::<char>::empty()
        } else {
            gap
        }) + utf8_lossy(q_bytes(encode_utf8(second))) + unworded(rest, true),
{
    let w1 = word(charset, seq!['Q'], first);
    let w2 = word(charset, seq!['Q'], second);
    let none = Seq::<char>::empty();
    lemma_letters('Q');
    lemma_word(charset, 'Q', second, rest, q_bytes(encode_utf8(second)));
    let here = w2 + rest;
    let text = utf8_lossy(q_bytes(encode_utf8(second)));
    lemma_word_read(gap, here, rest, text, w2.len() as int, true);
    quoted_words_are_read(none, charset, 'Q', first, gap + here);
    assert(none + w1 + (gap + here) =~= w1 + gap + w2 + rest);
    let t1 = utf8_lossy(q_bytes(encode_utf8(first)));
    assert(none + t1 + unworded(gap + here, true) =~= t1 + unworded(gap + here, true));
    assert(unworded(w1 + gap + w2 + rest, false) =~= t1 + (if all_white(gap) {
        Seq::<char>::empty()
    } else {
        gap
    }) + text + unworded(rest, true));
}

/// Text that begins no encoded word stays as it is.
pub proof fn unencoded_text_stays(front: Seq<char>, rest: Seq<char>)
    requires
        !front.contains('='),
        word_cuts("=?"@ + rest) is None,
    ensures
        unworded(front + ("=?"@ + rest), false) == front + "=?"@ + unworded(rest, false),
{
    reveal_strlit("=?");
    let here = "=?"@ + rest;
    let all = front + here;
    let k = front.len() as int;
    assert(all.subrange(k, k + 2) =~= "=?"@);
    assert forall|j: int| 0 <= j < k implies !#[trigger] matches_at(all, "=?"@, j) by {
        if matches_at(all, "=?"@, j) {
            assert(all.subrange(j, j + 2)[0] == all[j]);
            assert(front.contains(front[j]));
        }
    }
    lemma_find_is(all, "=?"@, k);
    assert(all.take(k) =~= front);
    assert(all.skip(k) =~= here);
    assert(here.skip(2) =~= rest);
}

} // verus!
