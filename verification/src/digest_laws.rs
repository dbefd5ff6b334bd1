//! What holds of digests: what is told apart is digested from different bytes, and
//! digits stand for their bytes.

use vstd::prelude::*;
use vstd::utf8::{encode_scalar, encode_utf8, encode_utf8_decode_utf8};
use crate::calendar::event_id;
use crate::digest::{hex, sha256, short_digest};
use crate::gmail::thread_digest;
use crate::html::digit_value;
use crate::inbox::item_digest;
use crate::text::begins;

verus! {

proof fn lemma_encoded(a: Seq<char>, b: Seq<char>)
    ensures
        encode_utf8(a + b) == encode_utf8(a) + encode_utf8(b),
    decreases a.len(),
{
    if a.len() == 0 {
        assert(a + b =~= b);
        assert(encode_utf8(a) + encode_utf8(b) =~= encode_utf8(b));
    } else {
        let rest = a.drop_first();
        lemma_encoded(rest, b);
        assert((a + b).drop_first() =~= rest + b);
        assert((a + b)[0] == a[0]);
        assert(encode_utf8(a + b) =~= encode_utf8(a) + encode_utf8(b));
    }
}

proof fn lemma_nul()
    ensures
        encode_utf8(seq!['\0']) == seq![0u8],
{
    let s = seq!['\0'];
    assert(s[0] as u32 == 0);
    assert((0u32 & 0x7Fu32) as u8 == 0u8) by (bit_vector);
    assert(encode_scalar(0u32) =~= seq![0u8]);
    assert(s.drop_first() =~= Seq::<char>::empty());
    assert(encode_utf8(s.drop_first()) =~= Seq::<u8>::empty());
    assert(encode_utf8(s) =~= seq![0u8]);
}

/// Two texts with a null between them.
spec fn pair(a: Seq<char>, b: Seq<char>) -> Seq<char> {
    a + seq!['\0'] + b
}

proof fn lemma_pair_encoded(a: Seq<char>, b: Seq<char>)
    ensures
        encode_utf8(pair(a, b)) == encode_utf8(a) + seq![0u8] + encode_utf8(b),
{
    lemma_encoded(a + seq!['\0'], b);
    lemma_encoded(a, seq!['\0']);
    lemma_nul();
}

/// Texts without a null are found again on both sides of one.
proof fn lemma_pair_apart(a: Seq<char>, b: Seq<char>, c: Seq<char>, d: Seq<char>)
    requires
        !a.contains('\0'),
        !c.contains('\0'),
        pair(a, b) == pair(c, d),
    ensures
        a == c,
        b == d,
{
    let x = pair(a, b);
    let y = pair(c, d);
    assert(x[a.len() as int] == '\0');
    assert(y[c.len() as int] == '\0');
    if a.len() < c.len() {
        assert(y[a.len() as int] == c[a.len() as int]);
        assert(c.contains(c[a.len() as int]));
    }
    if c.len() < a.len() {
        assert(x[c.len() as int] == a[c.len() as int]);
        assert(a.contains(a[c.len() as int]));
    }
    assert(a =~= c) by {
        assert forall|i: int| 0 <= i < a.len() implies a[i] == c[i] by {
            assert(x[i] == a[i] && y[i] == c[i]);
        }
    }
    assert(x.len() == a.len() + 1 + b.len());
    assert(y.len() == c.len() + 1 + d.len());
    assert(b =~= d) by {
        let n = a.len() as int + 1;
        assert forall|i: int| 0 <= i < b.len() implies b[i] == d[i] by {
            assert(x[n + i] == b[i] && y[n + i] == d[i]);
        }
    }
}

proof fn lemma_encoded_apart(a: Seq<char>, b: Seq<char>)
    requires
        encode_utf8(a) == encode_utf8(b),
    ensures
        a == b,
{
    encode_utf8_decode_utf8(a);
    encode_utf8_decode_utf8(b);
}

/// Whether two digests are those of different bytes.
pub open spec fn of_different_bytes(d: Seq<char>, e: Seq<char>) -> bool {
    exists|x: Seq<u8>, y: Seq<u8>|
        x != y && d == #[trigger] short_digest(x) && e == #[trigger] short_digest(y)
}

/// Items of different accounts, of different sources, or with different ids are
/// digested from different bytes.
pub proof fn different_items_are_digested_apart(
    account: Seq<char>,
    source: Seq<char>,
    id: Seq<char>,
    account2: Seq<char>,
    source2: Seq<char>,
    id2: Seq<char>,
)
    requires
        !account.contains('\0') && !account2.contains('\0'),
        !source.contains('\0') && !source2.contains('\0'),
        account != account2 || source != source2 || id != id2,
    ensures
        of_different_bytes(
            item_digest(account, source, id),
            item_digest(account2, source2, id2),
        ),
{
    let a = pair(account, pair(source, id));
    let b = pair(account2, pair(source2, id2));
    lemma_pair_encoded(account, pair(source, id));
    lemma_pair_encoded(source, id);
    lemma_pair_encoded(account2, pair(source2, id2));
    lemma_pair_encoded(source2, id2);
    let x = encode_utf8(account) + seq![0u8] + encode_utf8(source) + seq![0u8] + encode_utf8(id);
    let y = encode_utf8(account2) + seq![0u8] + encode_utf8(source2) + seq![0u8] + encode_utf8(id2);
    assert(x =~= encode_utf8(a));
    assert(y =~= encode_utf8(b));
    if x == y {
        lemma_encoded_apart(a, b);
        lemma_pair_apart(account, pair(source, id), account2, pair(source2, id2));
        lemma_pair_apart(source, id, source2, id2);
    }
    assert(item_digest(account, source, id) == short_digest(x));
    assert(item_digest(account2, source2, id2) == short_digest(y));
}

/// Threads of different accounts, or with different ids, are digested from
/// different bytes.
pub proof fn different_threads_are_digested_apart(
    account: Seq<char>,
    id: Seq<char>,
    account2: Seq<char>,
    id2: Seq<char>,
)
    requires
        !account.contains('\0') && !account2.contains('\0'),
        account != account2 || id != id2,
    ensures
        of_different_bytes(thread_digest(account, id), thread_digest(account2, id2)),
{
    lemma_two(account, id, account2, id2);
    let x = encode_utf8(account) + seq![0u8] + encode_utf8(id);
    let y = encode_utf8(account2) + seq![0u8] + encode_utf8(id2);
    assert(thread_digest(account, id) == short_digest(x));
    assert(thread_digest(account2, id2) == short_digest(y));
}

/// Events of different calendars, or with different ids, are digested from
/// different bytes.
pub proof fn different_events_are_digested_apart(
    calendar: Seq<char>,
    id: Seq<char>,
    calendar2: Seq<char>,
    id2: Seq<char>,
)
    requires
        !calendar.contains('\0') && !calendar2.contains('\0'),
        calendar != calendar2 || id != id2,
    ensures
        of_different_bytes(event_id(calendar, id), event_id(calendar2, id2)),
{
    lemma_two(calendar, id, calendar2, id2);
    let x = encode_utf8(calendar) + seq![0u8] + encode_utf8(id);
    let y = encode_utf8(calendar2) + seq![0u8] + encode_utf8(id2);
    assert(event_id(calendar, id) == short_digest(x));
    assert(event_id(calendar2, id2) == short_digest(y));
}

proof fn lemma_two(a: Seq<char>, b: Seq<char>, c: Seq<char>, d: Seq<char>)
    requires
        !a.contains('\0'),
        !c.contains('\0'),
        a != c || b != d,
    ensures
        encode_utf8(a) + seq![0u8] + encode_utf8(b) != encode_utf8(c) + seq![0u8] + encode_utf8(d),
{
    lemma_pair_encoded(a, b);
    lemma_pair_encoded(c, d);
    if encode_utf8(pair(a, b)) == encode_utf8(pair(c, d)) {
        lemma_encoded_apart(pair(a, b), pair(c, d));
        lemma_pair_apart(a, b, c, d);
    }
}

/// Two digits stand for each byte, in order.
pub proof fn digits_stand_for_their_bytes(bytes: Seq<u8>, i: int)
    requires
        0 <= i < bytes.len(),
    ensures
        hex(bytes).len() == 2 * bytes.len(),
        16 * digit_value(hex(bytes)[2 * i]) + digit_value(hex(bytes)[2 * i + 1]) == bytes[i],
{
    let b = bytes[i] as int;
    assert((2 * i) / 2 == i);
    assert((2 * i + 1) / 2 == i);
    assert(0 <= b / 16 < 16);
    assert(16 * (b / 16) + b % 16 == b);
}

/// A digest is the first twelve digits of the hash.
pub proof fn digests_begin_the_hash(bytes: Seq<u8>)
    requires
        sha256(bytes).len() == 32,
    ensures
        short_digest(bytes).len() == 12,
        begins(hex(sha256(bytes)), short_digest(bytes)),
{
    let d = short_digest(bytes);
    let h = hex(sha256(bytes));
    assert(h.subrange(0, 12) =~= d) by {
        assert forall|i: int| 0 <= i < 12 implies h[i] == d[i] by {
            assert(0 <= i / 2 < 6);
            assert(sha256(bytes).take(6)[i / 2] == sha256(bytes)[i / 2]);
        }
    }
}

} // verus!
