//! Text as sequences of characters: white space, trimming, searching,
//! splitting into lines, and joining.

use vstd::prelude::*;
use vstd::slice::slice_subrange;

verus! {

/// The characters with the Unicode `White_Space` property.
pub open spec fn is_white(c: char) -> bool {
    let n = c as int;
    ||| 9 <= n <= 13
    ||| n == 0x20
    ||| n == 0x85
    ||| n == 0xa0
    ||| n == 0x1680
    ||| 0x2000 <= n <= 0x200a
    ||| n == 0x2028
    ||| n == 0x2029
    ||| n == 0x202f
    ||| n == 0x205f
    ||| n == 0x3000
}

/// Whether `c` is white space.
pub fn char_is_white(c: char) -> (white: bool)
    ensures
        white == is_white(c),
{
    let n: u32 = c as u32;
    (9 <= n && n <= 13) || n == 0x20 || n == 0x85 || n == 0xa0 || n == 0x1680 || (0x2000 <= n && n
        <= 0x200a) || n == 0x2028 || n == 0x2029 || n == 0x202f || n == 0x205f || n == 0x3000
}

/// How many white characters `s` begins with.
pub open spec fn lead(s: Seq<char>) -> nat
    decreases s.len(),
{
    if s.len() > 0 && is_white(s[0]) {
        1 + lead(s.skip(1))
    } else {
        0
    }
}

/// How many characters of `s` stand before its trailing white ones.
pub open spec fn body_len(s: Seq<char>) -> nat
    decreases s.len(),
{
    if s.len() > 0 && is_white(s.last()) {
        body_len(s.drop_last())
    } else {
        s.len()
    }
}

/// `s` without its leading white characters.
pub open spec fn trim_start(s: Seq<char>) -> Seq<char> {
    s.skip(lead(s) as int)
}

/// `s` without its trailing white characters.
pub open spec fn trim_end(s: Seq<char>) -> Seq<char> {
    s.take(body_len(s) as int)
}

/// `s` without its leading and trailing white characters.
pub open spec fn trim(s: Seq<char>) -> Seq<char> {
    trim_end(trim_start(s))
}

/// Whether `s` holds white characters only.
pub open spec fn all_white(s: Seq<char>) -> bool {
    forall|i: int| 0 <= i < s.len() ==> is_white(#[trigger] s[i])
}

/// The leading white run is white, and stops at the first other character.
pub proof fn lemma_lead(s: Seq<char>)
    ensures
        lead(s) <= s.len(),
        forall|i: int| 0 <= i < lead(s) ==> is_white(#[trigger] s[i]),
        lead(s) < s.len() ==> !is_white(s[lead(s) as int]),
    decreases s.len(),
{
    if s.len() > 0 && is_white(s[0]) {
        let rest = s.skip(1);
        lemma_lead(rest);
        assert forall|i: int| 0 <= i < lead(s) implies is_white(#[trigger] s[i]) by {
            if i > 0 {
                assert(s[i] == rest[i - 1]);
            }
        }
        if lead(s) < s.len() {
            assert(s[lead(s) as int] == rest[lead(rest) as int]);
        }
    }
}

/// A white run of `k` characters that the text's other characters follow is
/// the leading one.
pub proof fn lemma_lead_is(s: Seq<char>, k: int)
    requires
        0 <= k <= s.len(),
        forall|i: int| 0 <= i < k ==> is_white(#[trigger] s[i]),
        k < s.len() ==> !is_white(s[k]),
    ensures
        lead(s) == k,
{
    lemma_lead(s);
    let m = lead(s) as int;
    if m < k {
        assert(is_white(s[m]));
    } else if k < m {
        assert(is_white(s[k]));
    }
}

/// What follows the body is white, and the body ends in another character.
pub proof fn lemma_body(s: Seq<char>)
    ensures
        body_len(s) <= s.len(),
        forall|i: int| body_len(s) <= i < s.len() ==> is_white(#[trigger] s[i]),
        body_len(s) > 0 ==> !is_white(s[body_len(s) - 1]),
    decreases s.len(),
{
    if s.len() > 0 && is_white(s.last()) {
        let rest = s.drop_last();
        lemma_body(rest);
        assert forall|i: int| body_len(s) <= i < s.len() implies is_white(#[trigger] s[i]) by {
            if i < s.len() - 1 {
                assert(s[i] == rest[i]);
            }
        }
    }
}

/// A cut after which everything is white, and before which something is not,
/// ends the body.
pub proof fn lemma_body_is(s: Seq<char>, k: int)
    requires
        0 <= k <= s.len(),
        forall|i: int| k <= i < s.len() ==> is_white(#[trigger] s[i]),
        k > 0 ==> !is_white(s[k - 1]),
    ensures
        body_len(s) == k,
{
    lemma_body(s);
    let m = body_len(s) as int;
    if m < k {
        assert(is_white(s[k - 1]));
    } else if k < m {
        assert(is_white(s[m - 1]));
    }
}

/// The characters of `s`.
pub fn to_chars(s: &str) -> (chars: Vec<char>)
    ensures
        chars@ == s@,
{
    let mut chars: Vec<char> = Vec::new();
    for c in it: s.chars()
        invariant
            chars@ == it.seq().take(it.index()),
            it.seq() == s@,
    {
        chars.push(c);
        assert(it.seq().take(it.index() + 1) == it.seq().take(it.index()).push(c));
    }
    assert(s@.take(s@.len() as int) == s@);
    chars
}

/// The string with the given characters: `String::from_iter` keeps every
/// character and their order.
#[verifier::external_body]
pub(crate) fn from_chars(chars: &[char]) -> (s: String)
    ensures
        s@ == chars@,
{
    String::from_iter(chars)
}

/// A copy of a string slice.
pub fn own(s: &str) -> (copy: String)
    ensures
        copy@ == s@,
{
    s.to_owned()
}

/// Whether two texts are the same.
pub fn same(a: &[char], b: &[char]) -> (equal: bool)
    ensures
        equal == (a@ == b@),
{
    if a.len() != b.len() {
        return false;
    }
    let mut i: usize = 0;
    while i < a.len()
        invariant
            a@.len() == b@.len(),
            i <= a@.len(),
            forall|j: int| 0 <= j < i ==> a@[j] == b@[j],
        decreases a@.len() - i,
    {
        if a[i] != b[i] {
            return false;
        }
        i = i + 1;
    }
    assert(a@ =~= b@);
    true
}

/// Whether two string slices are the same.
pub fn same_str(a: &str, b: &str) -> (equal: bool)
    ensures
        equal == (a@ == b@),
{
    same(to_chars(a).as_slice(), to_chars(b).as_slice())
}

/// Appends `more` to `out`.
pub fn append(out: &mut Vec<char>, more: &[char])
    ensures
        final(out)@ == old(out)@ + more@,
{
    let mut i: usize = 0;
    while i < more.len()
        invariant
            i <= more@.len(),
            out@ == old(out)@ + more@.take(i as int),
        decreases more@.len() - i,
    {
        out.push(more[i]);
        assert(more@.take(i + 1) == more@.take(i as int).push(more@[i as int]));
        i = i + 1;
    }
    assert(more@.take(more@.len() as int) == more@);
}

/// Appends a string slice to `out`.
pub fn append_str(out: &mut Vec<char>, more: &str)
    ensures
        final(out)@ == old(out)@ + more@,
{
    append(out, to_chars(more).as_slice());
}

/// The length of the leading white run.
pub fn lead_len(s: &[char]) -> (n: usize)
    ensures
        n == lead(s@),
        n <= s@.len(),
{
    let mut i: usize = 0;
    while i < s.len() && char_is_white(s[i])
        invariant
            i <= s@.len(),
            forall|j: int| 0 <= j < i ==> is_white(#[trigger] s@[j]),
        decreases s@.len() - i,
    {
        i = i + 1;
    }
    proof {
        lemma_lead_is(s@, i as int);
    }
    i
}

/// The length of the text without its trailing white run.
pub fn body_end(s: &[char]) -> (n: usize)
    ensures
        n == body_len(s@),
        n <= s@.len(),
{
    let mut i: usize = s.len();
    while i > 0 && char_is_white(s[i - 1])
        invariant
            i <= s@.len(),
            forall|j: int| i <= j < s@.len() ==> is_white(#[trigger] s@[j]),
        decreases i,
    {
        i = i - 1;
    }
    proof {
        lemma_body_is(s@, i as int);
    }
    i
}

/// The text without its leading white characters.
pub fn trimmed_start(s: &[char]) -> (t: &[char])
    ensures
        t@ == trim_start(s@),
{
    let n: usize = lead_len(s);
    slice_subrange(s, n, s.len())
}

/// The text without its trailing white characters.
pub fn trimmed_end(s: &[char]) -> (t: &[char])
    ensures
        t@ == trim_end(s@),
{
    let n: usize = body_end(s);
    slice_subrange(s, 0, n)
}

/// The text without its leading and trailing white characters.
pub fn trimmed(s: &[char]) -> (t: &[char])
    ensures
        t@ == trim(s@),
{
    trimmed_end(trimmed_start(s))
}

/// Whether `p` stands in `s` at position `at`.
pub open spec fn matches_at(s: Seq<char>, p: Seq<char>, at: int) -> bool {
    0 <= at && at + p.len() <= s.len() && s.subrange(at, at + p.len()) == p
}

/// Whether `p` stands somewhere in `s`.
pub open spec fn has(s: Seq<char>, p: Seq<char>) -> bool {
    exists|at: int| #[trigger] matches_at(s, p, at)
}

/// What stands in a text stands in any text around it.
pub proof fn lemma_has(a: Seq<char>, s: Seq<char>, b: Seq<char>, p: Seq<char>)
    requires
        has(s, p),
    ensures
        has(a + s + b, p),
{
    let at = choose|at: int| #[trigger] matches_at(s, p, at);
    let all = a + s + b;
    let k = a.len() + at;
    assert(all.subrange(k, k + p.len()) =~= s.subrange(at, at + p.len()));
    assert(matches_at(all, p, k));
}

/// A text stands in itself.
pub proof fn lemma_has_itself(s: Seq<char>)
    ensures
        has(s, s),
{
    assert(s.subrange(0, s.len() as int) =~= s);
    assert(matches_at(s, s, 0));
}

/// A text stands between any two others.
pub proof fn lemma_has_between(a: Seq<char>, p: Seq<char>, b: Seq<char>)
    ensures
        has(a + p + b, p),
{
    lemma_has_itself(p);
    lemma_has(a, p, b, p);
}

/// The first position from `from` on where `p` stands in `s`.
pub open spec fn find_from(s: Seq<char>, p: Seq<char>, from: int) -> Option<int>
    decreases s.len() - from + 1,
{
    if from + p.len() > s.len() {
        None
    } else if matches_at(s, p, from) {
        Some(from)
    } else {
        find_from(s, p, from + 1)
    }
}

/// The first position where `p` stands in `s`.
pub open spec fn find(s: Seq<char>, p: Seq<char>) -> Option<int> {
    find_from(s, p, 0)
}

/// The last position up to `to` where `p` stands in `s`.
pub open spec fn rfind_to(s: Seq<char>, p: Seq<char>, to: int) -> Option<int>
    decreases to + 1,
{
    if to < 0 {
        None
    } else if matches_at(s, p, to) {
        Some(to)
    } else {
        rfind_to(s, p, to - 1)
    }
}

/// The last position where `p` stands in `s`.
pub open spec fn rfind(s: Seq<char>, p: Seq<char>) -> Option<int> {
    rfind_to(s, p, s.len() - p.len())
}

/// What a search from `from` on returns.
pub proof fn lemma_find_from(s: Seq<char>, p: Seq<char>, from: int)
    requires
        0 <= from,
    ensures
        find_from(s, p, from) matches Some(at) ==> from <= at && matches_at(s, p, at) && forall|j: int|
            from <= j < at ==> !matches_at(s, p, j),
        find_from(s, p, from) is None ==> forall|j: int| from <= j ==> !matches_at(s, p, j),
    decreases s.len() - from + 1,
{
    if from + p.len() > s.len() {
    } else if matches_at(s, p, from) {
    } else {
        lemma_find_from(s, p, from + 1);
        assert forall|j: int| from <= j && (find_from(s, p, from) is None || j < find_from(
            s,
            p,
            from,
        )->0) implies !matches_at(s, p, j) by {
            if j > from {
                assert(from + 1 <= j);
            }
        }
    }
}

/// What a backward search returns.
pub proof fn lemma_rfind_to(s: Seq<char>, p: Seq<char>, to: int)
    ensures
        rfind_to(s, p, to) matches Some(at) ==> at <= to && matches_at(s, p, at) && forall|j: int|
            at < j <= to ==> !matches_at(s, p, j),
        rfind_to(s, p, to) is None ==> forall|j: int| j <= to ==> !matches_at(s, p, j),
    decreases to + 1,
{
    if to < 0 {
    } else if matches_at(s, p, to) {
    } else {
        lemma_rfind_to(s, p, to - 1);
        assert forall|j: int| j <= to && (rfind_to(s, p, to) is None || rfind_to(s, p, to)->0
            < j) implies !matches_at(s, p, j) by {
            if j < to {
                assert(j <= to - 1);
            }
        }
    }
}

/// The last place where `p` stands is where the backward search ends.
pub proof fn lemma_rfind_is(s: Seq<char>, p: Seq<char>, at: int)
    requires
        matches_at(s, p, at),
        forall|j: int| at < j ==> !matches_at(s, p, j),
    ensures
        rfind(s, p) == Some(at),
{
    lemma_rfind_to(s, p, s.len() - p.len());
}

/// What stands in a text is found in it.
pub proof fn lemma_has_found(s: Seq<char>, p: Seq<char>)
    ensures
        find(s, p) is Some == has(s, p),
{
    lemma_find_from(s, p, 0);
    if find(s, p) is Some {
        assert(matches_at(s, p, find(s, p)->0));
    } else if has(s, p) {
        let at = choose|at: int| #[trigger] matches_at(s, p, at);
        assert(!matches_at(s, p, at));
    }
}

/// Whether `s` begins with `p`.
pub open spec fn begins(s: Seq<char>, p: Seq<char>) -> bool {
    matches_at(s, p, 0)
}

/// Whether `s` ends with `p`.
pub open spec fn ends(s: Seq<char>, p: Seq<char>) -> bool {
    matches_at(s, p, s.len() - p.len())
}

/// Whether `p` stands in `s` at position `at`.
pub fn stands_at(s: &[char], p: &[char], at: usize) -> (yes: bool)
    ensures
        yes == matches_at(s@, p@, at as int),
{
    if at > s.len() || p.len() > s.len() - at {
        return false;
    }
    same(slice_subrange(s, at, at + p.len()), p)
}

/// The first position from `from` on where `p` stands in `s`.
pub fn position_from(s: &[char], p: &[char], from: usize) -> (at: Option<usize>)
    ensures
        at matches Some(i) ==> find_from(s@, p@, from as int) == Some(i as int) && i + p@.len()
            <= s@.len(),
        at is None ==> find_from(s@, p@, from as int) is None,
{
    let mut i: usize = from;
    while i <= s.len() && p.len() <= s.len() - i
        invariant
            from <= i,
            find_from(s@, p@, from as int) == find_from(s@, p@, i as int),
        decreases s@.len() + 1 - i,
    {
        if stands_at(s, p, i) {
            return Some(i);
        }
        if i == s.len() {
            assert(find_from(s@, p@, i + 1) is None);
            return None;
        }
        i = i + 1;
    }
    None
}

/// The first position where `p` stands in `s`.
pub fn position(s: &[char], p: &[char]) -> (at: Option<usize>)
    ensures
        at matches Some(i) ==> find(s@, p@) == Some(i as int) && i + p@.len() <= s@.len(),
        at is None ==> find(s@, p@) is None,
{
    position_from(s, p, 0)
}

/// The last position where `p` stands in `s`.
pub fn last_position(s: &[char], p: &[char]) -> (at: Option<usize>)
    ensures
        at matches Some(i) ==> rfind(s@, p@) == Some(i as int) && i + p@.len() <= s@.len(),
        at is None ==> rfind(s@, p@) is None,
{
    if p.len() > s.len() {
        return None;
    }
    let mut i: usize = s.len() - p.len();
    loop
        invariant
            i + p@.len() <= s@.len(),
            rfind(s@, p@) == rfind_to(s@, p@, i as int),
        decreases i,
    {
        if stands_at(s, p, i) {
            return Some(i);
        }
        if i == 0 {
            assert(rfind_to(s@, p@, -1) is None);
            return None;
        }
        i = i - 1;
    }
}

} // verus!
