//! Short stable digests.

use sha2::Digest;
use vstd::prelude::*;
use vstd::utf8::encode_utf8;
use crate::format::is_hex;
use crate::text::from_chars;

verus! {

/// The SHA-256 digest of a byte string.
pub uninterp spec fn sha256(bytes: Seq<u8>) -> Seq<u8>;

/// `sha2::Sha256::digest`: the digest depends on the bytes alone, is named
/// `sha256`, and is 32 bytes long.
#[verifier::external_body]
fn sha256_digest(bytes: &[u8]) -> (digest: Vec<u8>)
    ensures
        digest@ == sha256(bytes@),
        digest@.len() == 32,
{
    sha2::Sha256::digest(bytes).to_vec()
}

/// A hexadecimal digit, in small letters.
pub open spec fn hex_digit(n: int) -> char {
    if n < 10 {
        (48 + n) as char
    } else {
        (87 + n) as char
    }
}

/// Bytes in hexadecimal, two small digits each.
pub open spec fn hex(bytes: Seq<u8>) -> Seq<char> {
    Seq::new(
        2 * bytes.len(),
        |i: int|
            if i % 2 == 0 {
                hex_digit(bytes[i / 2] as int / 16)
            } else {
                hex_digit(bytes[i / 2] as int % 16)
            },
    )
}

/// The first twelve hexadecimal digits of the SHA-256 digest.
pub open spec fn short_digest(bytes: Seq<u8>) -> Seq<char> {
    hex(sha256(bytes).take(6))
}

fn hex_char(n: u8) -> (c: char)
    requires
        n < 16,
    ensures
        c == hex_digit(n as int),
        is_hex(c),
{
    if n < 10 {
        (48 + n) as char
    } else {
        (87 + n) as char
    }
}

/// The first twelve hexadecimal digits of the SHA-256 digest.
pub fn short_hex(bytes: &[u8]) -> (id: String)
    ensures
        id@ == short_digest(bytes@),
        id@.len() == 12,
        forall|i: int| 0 <= i < 12 ==> is_hex(#[trigger] id@[i]),
{
    let digest = sha256_digest(bytes);
    let mut out: Vec<char> = Vec::new();
    let mut i: usize = 0;
    while i < 6
        invariant
            i <= 6,
            digest@.len() == 32,
            out@.len() == 2 * i,
            out@ == hex(digest@.take(i as int)),
            forall|j: int| 0 <= j < out@.len() ==> is_hex(#[trigger] out@[j]),
        decreases 6 - i,
    {
        let ghost before = out@;
        let b: u8 = digest[i];
        out.push(hex_char(b / 16));
        out.push(hex_char(b % 16));
        i = i + 1;
        assert(out@ =~= hex(digest@.take(i as int))) by {
            assert forall|j: int| 0 <= j < out@.len() implies out@[j] == hex(
                digest@.take(i as int),
            )[j] by {
                if j < before.len() {
                    assert(before[j] == hex(digest@.take(i - 1))[j]);
                }
            }
        }
    }
    from_chars(out.as_slice())
}

/// Appends the UTF-8 bytes of a string.
pub fn append_bytes(out: &mut Vec<u8>, s: &str)
    ensures
        final(out)@ == old(out)@ + encode_utf8(s@),
{
    let bytes = s.as_bytes();
    let mut i: usize = 0;
    while i < bytes.len()
        invariant
            i <= bytes@.len(),
            out@ == old(out)@ + bytes@.take(i as int),
        decreases bytes@.len() - i,
    {
        out.push(bytes[i]);
        assert(bytes@.take(i + 1) == bytes@.take(i as int).push(bytes@[i as int]));
        i = i + 1;
    }
    assert(bytes@.take(bytes@.len() as int) == bytes@);
}

} // verus!
