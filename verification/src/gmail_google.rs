//! The Gmail transport's decisions: how labels resolve, which threads a poll
//! captures, what an answer means, and how a thread becomes a captured item.
//! Read-only toward Google: no label is ever modified.

use vstd::prelude::*;
use vstd::utf8::encode_utf8;
use crate::format::{ascii_lowered, lowercase, lowered, same_ignoring_case};
use crate::gmail::{
    gmail_thread_url, sanitize_subject, subject_title, thread_digest, thread_marker_id, thread_url,
    SyncMapping,
};
use crate::html::{all_digits, digit_value, digits_value};
use crate::inbox::{capture_digest, item_digest, text_of, CapturedItem, Item};
use crate::lines::strings;
use crate::mime::{
    decode_rfc2047, extract_text_body, header, header_value, message_text, unworded, MessagePart,
};
use crate::moments::{format_moment, moment_text, Moment};
use crate::sort::{ascending, sort, sorted, views, Ranked};
use crate::text::{append, append_str, find, from_chars, own, position, to_chars, trim, trimmed};
use crate::words::{collapse, collapsed, holds, list_holds};

verus! {

/// A label of the account.
#[derive(Debug, Clone)]
pub struct GmailLabel {
    pub id: String,
    pub name: String,
}

/// A message, by reference.
#[derive(Debug, Clone)]
pub struct MessageRef {
    pub id: String,
    pub thread_id: String,
}

/// A message of a thread.
#[derive(Debug)]
pub struct GmailMessage {
    pub label_ids: Vec<String>,
    /// Milliseconds since the epoch, as a string.
    pub internal_date: Option<String>,
    pub payload: MessagePart,
}

/// A thread.
#[derive(Debug)]
pub struct GmailThread {
    pub messages: Vec<GmailMessage>,
}

/// Bytes in the form that queries carry: letters, digits and `*-._` stay, a
/// space is a plus sign, and any other byte is a percent sign and two
/// hexadecimal digits.
pub open spec fn form_encoded(bytes: Seq<u8>) -> Seq<char>
    decreases bytes.len(),
{
    if bytes.len() == 0 {
        Seq::empty()
    } else {
        form_encoded(bytes.drop_last()) + form_byte(bytes.last())
    }
}

/// One byte in that form.
pub open spec fn form_byte(b: u8) -> Seq<char> {
    if 48 <= b <= 57 || 65 <= b <= 90 || 97 <= b <= 122 || b == 42 || b == 45 || b == 46 || b
        == 95 {
        seq![b as char]
    } else if b == 32 {
        seq!['+']
    } else {
        seq!['%', big_hex(b as int / 16), big_hex(b as int % 16)]
    }
}

/// A hexadecimal digit, in capital letters.
pub open spec fn big_hex(n: int) -> char {
    if n < 10 {
        (48 + n) as char
    } else {
        (55 + n) as char
    }
}

/// `url`'s `form_urlencoded::byte_serialize`, on the bytes of a string: they
/// come out in the form that `form_encoded` states.
#[verifier::external_body]
fn byte_serialize(segment: &str) -> (out: String)
    ensures
        out@ == form_encoded(encode_utf8(segment@)),
{
    url::form_urlencoded::byte_serialize(segment.as_bytes()).collect()
}

/// A query with one pair more.
pub open spec fn with_pair(query: Seq<char>, name: Seq<char>, value: Seq<char>) -> Seq<char> {
    query + (if query.len() > 0 {
        seq!['&']
    } else {
        Seq::empty()
    }) + form_encoded(encode_utf8(name)) + seq!['='] + form_encoded(encode_utf8(value))
}

/// `url`'s `form_urlencoded::Serializer::append_pair`, on a serializer made for
/// the query so far: it adds the pair in the form that `with_pair` states.
#[verifier::external_body]
fn append_pair(query: String, name: &str, value: &str) -> (out: String)
    ensures
        out@ == with_pair(query@, name@, value@),
{
    let mut serializer = url::form_urlencoded::Serializer::new(query);
    serializer.append_pair(name, value);
    serializer.finish()
}

/// The address of the account's labels.
pub fn labels_url() -> (url: String)
    ensures
        url@ == "https://gmail.googleapis.com/gmail/v1/users/me/labels"@,
{
    own("https://gmail.googleapis.com/gmail/v1/users/me/labels")
}

/// The query for one page of a label's messages.
pub open spec fn page_query(label_id: Seq<char>, page: Option<Seq<char>>) -> Seq<char> {
    let first = with_pair(
        with_pair(Seq::empty(), "labelIds"@, label_id),
        "maxResults"@,
        "100"@,
    );
    match page {
        Some(token) => with_pair(first, "pageToken"@, token),
        None => first,
    }
}

/// The address of one page of a label's messages, newest first.
pub fn messages_url(label_id: &str, page_token: Option<&str>) -> (url: String)
    ensures
        url@ == "https://gmail.googleapis.com/gmail/v1/users/me/messages?"@ + page_query(
            label_id@,
            match page_token {
                Some(token) => Some(token@),
                None => None,
            },
        ),
{
    let nothing: Vec<char> = Vec::new();
    let start = from_chars(nothing.as_slice());
    assert(start@ =~= Seq::<char>::empty());
    let query = append_pair(start, "labelIds", label_id);
    let query = append_pair(query, "maxResults", "100");
    let query = match page_token {
        Some(token) => append_pair(query, "pageToken", token),
        None => query,
    };
    let mut out: Vec<char> = to_chars("https://gmail.googleapis.com/gmail/v1/users/me/messages?");
    append_str(&mut out, query.as_str());
    from_chars(out.as_slice())
}

/// The address of a whole thread.
pub fn thread_request_url(thread_id: &str) -> (url: String)
    ensures
        url@ == "https://gmail.googleapis.com/gmail/v1/users/me/threads/"@ + form_encoded(
            encode_utf8(thread_id@),
        ) + "?format=full"@,
{
    let mut out: Vec<char> = to_chars("https://gmail.googleapis.com/gmail/v1/users/me/threads/");
    append_str(&mut out, byte_serialize(thread_id).as_str());
    append_str(&mut out, "?format=full");
    from_chars(out.as_slice())
}

/// What an answer to a request means.
#[derive(Debug, Clone, Copy, PartialEq, Eq, Structural)]
pub enum Answer {
    /// The body is what was asked for.
    Good,
    /// The access token is not accepted: refresh it and ask again.
    Unauthorized,
    /// The grant lacks the scope: only a reconnect helps.
    AuthRevoked,
    /// Anything else.
    Failed,
}

/// What an answer means, by its status and body.
pub open spec fn answer(status: int, body: Seq<char>) -> Answer {
    if status == 401 {
        Answer::Unauthorized
    } else if status == 403 && find(lowercase(body), "insufficient"@) is Some {
        Answer::AuthRevoked
    } else if 200 <= status < 300 {
        Answer::Good
    } else {
        Answer::Failed
    }
}

/// What an answer means. A 403 for a token without the mail scope reads as a
/// revoked grant, so that it degrades to a reconnect affordance instead of an
/// endless retry.
pub fn classify_answer(status: u16, body: &str) -> (found: Answer)
    ensures
        found == answer(status as int, body@),
{
    if status == 401 {
        return Answer::Unauthorized;
    }
    if status == 403 {
        let lower = lowered(to_chars(body).as_slice());
        if position(lower.as_slice(), to_chars("insufficient").as_slice()).is_some() {
            return Answer::AuthRevoked;
        }
    }
    if 200 <= status && status < 300 {
        Answer::Good
    } else {
        Answer::Failed
    }
}

/// What comes after an attempt to fetch.
#[derive(Debug, Clone, Copy, PartialEq, Eq, Structural)]
pub enum AfterAttempt {
    /// Hand the result on, good or bad.
    Done,
    /// Drop the access token, get a fresh one, and try again.
    Refresh,
    /// The fresh token was not accepted either: the grant is gone.
    Revoked,
}

/// What comes after an attempt: a token that aged out is refreshed once.
pub fn after_attempt(retried: bool, unauthorized: bool) -> (next: AfterAttempt)
    ensures
        next == (if !unauthorized {
            AfterAttempt::Done
        } else if retried {
            AfterAttempt::Revoked
        } else {
            AfterAttempt::Refresh
        }),
{
    if !unauthorized {
        AfterAttempt::Done
    } else if retried {
        AfterAttempt::Revoked
    } else {
        AfterAttempt::Refresh
    }
}

/// The id of the first label with the given name, letter case aside.
pub open spec fn label_id(labels: Seq<GmailLabel>, name: Seq<char>) -> Option<Seq<char>>
    decreases labels.len(),
{
    if labels.len() == 0 {
        None
    } else if ascii_lowered(labels[0].name@) == ascii_lowered(name) {
        Some(labels[0].id@)
    } else {
        label_id(labels.skip(1), name)
    }
}

/// The id of the label with the given full path name.
fn find_label(labels: &[GmailLabel], name: &str) -> (id: Option<String>)
    ensures
        text_of(id) == label_id(labels@, name@),
{
    let ghost all = labels@;
    let wanted = to_chars(name);
    let mut i: usize = 0;
    assert(all.skip(0) =~= all);
    while i < labels.len()
        invariant
            i <= labels@.len(),
            all == labels@,
            wanted@ == name@,
            label_id(all, name@) == label_id(all.skip(i as int), name@),
        decreases labels@.len() - i,
    {
        assert(all.skip(i as int)[0] == all[i as int]);
        assert(all.skip(i as int).skip(1) =~= all.skip(i + 1));
        let here = to_chars(labels[i].name.as_str());
        if same_ignoring_case(here.as_slice(), wanted.as_slice()) {
            return Some(labels[i].id.clone());
        }
        i = i + 1;
    }
    None
}

/// The texts of optional strings.
pub open spec fn opt_texts(v: Seq<Option<String>>) -> Seq<Option<Seq<char>>> {
    v.map_values(|s: Option<String>| text_of(s))
}

/// Resolves every mapped label by its full path name: matching the last
/// segment would collide with any other label that ends alike. A missing label
/// leaves the others alone.
pub fn resolve_labels(mappings: &[SyncMapping], labels: &[GmailLabel]) -> (ids: Vec<Option<String>>)
    ensures
        opt_texts(ids@) == Seq::new(
            mappings@.len(),
            |i: int| label_id(labels@, mappings@[i].label@),
        ),
{
    let mut ids: Vec<Option<String>> = Vec::new();
    let mut i: usize = 0;
    while i < mappings.len()
        invariant
            i <= mappings@.len(),
            ids@.len() == i,
            forall|j: int|
                0 <= j < i ==> text_of(#[trigger] ids@[j]) == label_id(
                    labels@,
                    mappings@[j].label@,
                ),
        decreases mappings@.len() - i,
    {
        ids.push(find_label(labels, mappings[i].label.as_str()));
        i = i + 1;
    }
    assert(opt_texts(ids@) =~= Seq::new(
        mappings@.len(),
        |i: int| label_id(labels@, mappings@[i].label@),
    ));
    ids
}

/// The ids to keep for later polls: only a complete resolution is kept, so that
/// a label created later is picked up on the next poll.
pub fn complete_resolution(ids: &[Option<String>]) -> (kept: Option<Vec<String>>)
    ensures
        match kept {
            Some(all) => all@.len() == ids@.len() && forall|i: int|
                0 <= i < ids@.len() ==> #[trigger] text_of(ids@[i]) == Some(all@[i]@),
            None => exists|i: int| 0 <= i < ids@.len() && #[trigger] ids@[i] is None,
        },
{
    let mut kept: Vec<String> = Vec::new();
    let mut i: usize = 0;
    while i < ids.len()
        invariant
            i <= ids@.len(),
            kept@.len() == i,
            forall|j: int| 0 <= j < i ==> #[trigger] text_of(ids@[j]) == Some(kept@[j]@),
        decreases ids@.len() - i,
    {
        match &ids[i] {
            Some(id) => {
                kept.push(id.clone());
            },
            None => {
                return None;
            },
        }
        i = i + 1;
    }
    Some(kept)
}

/// The threads that messages belong to.
pub open spec fn thread_ids(refs: Seq<MessageRef>) -> Seq<Seq<char>> {
    refs.map_values(|r: MessageRef| r.thread_id@)
}

/// Whether a thread was captured before, by its digest or its older one.
pub open spec fn is_skipped(
    id: Seq<char>,
    account: Seq<char>,
    skip: Seq<Seq<char>>,
) -> bool {
    skip.contains(item_digest(account, "gmail"@, id)) || skip.contains(thread_digest(account, id))
}

/// The threads that one mapping claims: those not seen before, neither by an
/// earlier mapping nor in the list, and not captured before.
pub open spec fn claims(
    ids: Seq<Seq<char>>,
    account: Seq<char>,
    skip: Seq<Seq<char>>,
    seen: Seq<Seq<char>>,
) -> Seq<Seq<char>>
    decreases ids.len(),
{
    if ids.len() == 0 {
        Seq::empty()
    } else {
        let above = ids.drop_last();
        let id = ids.last();
        let done = claims(above, account, skip, seen);
        if seen.contains(id) || above.contains(id) || is_skipped(id, account, skip) {
            done
        } else {
            done.push(id)
        }
    }
}

/// One mapping's turn in a poll's claim pass. Gmail lists newest first, so the
/// first message seen of a thread represents it, and the first mapping to see
/// a thread claims it. `seen` goes from mapping to mapping.
pub fn claim_threads(
    refs: &[MessageRef],
    account: &str,
    skip: &[String],
    seen: &mut Vec<String>,
) -> (claimed: Vec<String>)
    ensures
        strings(claimed@) == claims(
            thread_ids(refs@),
            account@,
            strings(skip@),
            strings(old(seen)@),
        ),
        forall|id: Seq<char>| #[trigger]
            holds(final(seen)@, id) == (holds(old(seen)@, id) || thread_ids(refs@).contains(id)),
{
    let ghost ids = thread_ids(refs@);
    let ghost before = strings(seen@);
    let mut claimed: Vec<String> = Vec::new();
    let mut i: usize = 0;
    assert(ids.take(0) =~= Seq::<Seq<char>>::empty());
    assert(strings(claimed@) =~= Seq::<Seq<char>>::empty());
    while i < refs.len()
        invariant
            i <= refs@.len(),
            ids == thread_ids(refs@),
            before == strings(old(seen)@),
            strings(claimed@) == claims(ids.take(i as int), account@, strings(skip@), before),
            forall|id: Seq<char>| #[trigger]
                holds(seen@, id) == (before.contains(id) || ids.take(i as int).contains(id)),
        decreases refs@.len() - i,
    {
        let id = &refs[i].thread_id;
        let ghost above = ids.take(i as int);
        let ghost seen0 = seen@;
        proof {
            assert(ids[i as int] == id@);
            assert(ids.take(i + 1).drop_last() =~= above);
            assert(ids.take(i + 1) =~= above.push(id@));
        }
        if !list_holds(seen.as_slice(), id.as_str()) {
            seen.push(id.clone());
            assert(strings(seen@) =~= strings(seen0).push(id@));
            let digest = capture_digest(account, "gmail", id.as_str());
            let older = thread_marker_id(account, id.as_str());
            if !list_holds(skip, digest.as_str()) && !list_holds(skip, older.as_str()) {
                let ghost claimed0 = claimed@;
                claimed.push(id.clone());
                assert(strings(claimed@) =~= strings(claimed0).push(id@));
            }
            assert forall|x: Seq<char>| #[trigger] holds(seen@, x) == (before.contains(x)
                || ids.take(i + 1).contains(x)) by {
                crate::words::lemma_push_contains(strings(seen0), id@, x);
                crate::words::lemma_push_contains(above, id@, x);
                assert(holds(seen0, x) == (before.contains(x) || above.contains(x)));
            }
        } else {
            assert(holds(seen0, id@));
            assert forall|x: Seq<char>| #[trigger] holds(seen@, x) == (before.contains(x)
                || ids.take(i + 1).contains(x)) by {
                crate::words::lemma_push_contains(above, id@, x);
                assert(holds(seen0, x) == (before.contains(x) || above.contains(x)));
            }
        }
        i = i + 1;
    }
    assert(ids.take(ids.len() as int) =~= ids);
    claimed
}

/// What a mapping claims: every thread of its list that is new and not
/// captured before, each once.
pub proof fn new_threads_are_claimed(
    ids: Seq<Seq<char>>,
    account: Seq<char>,
    skip: Seq<Seq<char>>,
    seen: Seq<Seq<char>>,
)
    ensures
        forall|id: Seq<char>| #[trigger]
            claims(ids, account, skip, seen).contains(id) == (ids.contains(id) && !seen.contains(id)
                && !is_skipped(id, account, skip)),
        claims(ids, account, skip, seen).no_duplicates(),
    decreases ids.len(),
{
    let all = claims(ids, account, skip, seen);
    if ids.len() > 0 {
        let above = ids.drop_last();
        let last = ids.last();
        new_threads_are_claimed(above, account, skip, seen);
        let done = claims(above, account, skip, seen);
        assert(ids =~= above.push(last));
        assert forall|id: Seq<char>| #[trigger]
            all.contains(id) == (ids.contains(id) && !seen.contains(id) && !is_skipped(
                id,
                account,
                skip,
            )) by {
            crate::words::lemma_push_contains(above, last, id);
            crate::words::lemma_push_contains(done, last, id);
            assert(done.contains(id) == (above.contains(id) && !seen.contains(id) && !is_skipped(
                id,
                account,
                skip,
            )));
        }
        if all != done {
            assert(!done.contains(last));
            assert forall|i: int, j: int| 0 <= i < j < all.len() implies all[i] != all[j] by {
                if j == done.len() {
                    assert(done.contains(done[i]));
                }
            }
        }
    }
}

/// A whole poll's claims: each mapping in turn, with what the earlier ones saw.
pub open spec fn poll_claims(
    lists: Seq<Seq<Seq<char>>>,
    account: Seq<char>,
    skip: Seq<Seq<char>>,
) -> Seq<Seq<Seq<char>>> {
    Seq::new(
        lists.len(),
        |k: int| claims(lists[k], account, skip, lists.take(k).flatten()),
    )
}

/// A thread that several mappings list is captured once, by the first of them.
pub proof fn threads_are_claimed_once(
    lists: Seq<Seq<Seq<char>>>,
    account: Seq<char>,
    skip: Seq<Seq<char>>,
    k: int,
    id: Seq<char>,
)
    requires
        0 <= k < lists.len(),
    ensures
        poll_claims(lists, account, skip)[k].contains(id) == (lists[k].contains(id) && !is_skipped(
            id,
            account,
            skip,
        ) && forall|j: int| 0 <= j < k ==> !#[trigger] lists[j].contains(id)),
{
    let seen = lists.take(k).flatten();
    new_threads_are_claimed(lists[k], account, skip, seen);
    let got = claims(lists[k], account, skip, seen);
    assert(got.contains(id) == (lists[k].contains(id) && !seen.contains(id) && !is_skipped(
        id,
        account,
        skip,
    )));
    lemma_flatten_contains(lists.take(k), id);
    if seen.contains(id) {
        let j = choose|j: int| 0 <= j < k && #[trigger] lists.take(k)[j].contains(id);
        assert(lists[j].contains(id));
    } else {
        assert forall|j: int| 0 <= j < k implies !#[trigger] lists[j].contains(id) by {
            assert(lists.take(k)[j] == lists[j]);
        }
    }
}

proof fn lemma_flatten_contains(lists: Seq<Seq<Seq<char>>>, id: Seq<char>)
    ensures
        lists.flatten().contains(id) == (exists|j: int|
            0 <= j < lists.len() && #[trigger] lists[j].contains(id)),
    decreases lists.len(),
{
    if lists.len() == 0 {
        assert(lists.flatten().len() == 0);
    } else {
        let rest = lists.drop_first();
        lemma_flatten_contains(rest, id);
        let all = lists.flatten();
        let tail = rest.flatten();
        assert(all == lists.first() + tail);
        if all.contains(id) {
            let i = choose|i: int| 0 <= i < all.len() && all[i] == id;
            if i < lists[0].len() {
                assert(lists[0][i] == id);
                assert(lists[0].contains(id));
            } else {
                assert(tail[i - lists[0].len()] == id);
                let j = choose|j: int| 0 <= j < rest.len() && #[trigger] rest[j].contains(id);
                assert(lists[j + 1].contains(id));
            }
        }
        if exists|j: int| 0 <= j < lists.len() && #[trigger] lists[j].contains(id) {
            let j = choose|j: int| 0 <= j < lists.len() && #[trigger] lists[j].contains(id);
            if j == 0 {
                let i = choose|i: int| 0 <= i < lists[0].len() && lists[0][i] == id;
                assert(all[i] == id);
            } else {
                assert(rest[j - 1].contains(id));
                let i = choose|i: int| 0 <= i < tail.len() && tail[i] == id;
                assert(all[lists[0].len() + i] == id);
            }
        }
    }
}

/// The number that a text states: decimal digits, a sign may stand in front,
/// within the range of 64 bits.
pub open spec fn signed_number(s: Seq<char>) -> Option<int> {
    let signed = s.len() > 0 && (s[0] == '+' || s[0] == '-');
    let digits = if signed {
        s.skip(1)
    } else {
        s
    };
    let value = if signed && s[0] == '-' {
        -digits_value(digits, 10)
    } else {
        digits_value(digits, 10)
    };
    if digits.len() > 0 && all_digits(digits, 10) && i64::MIN <= value <= i64::MAX {
        Some(value)
    } else {
        None
    }
}

/// A longer run of digits is worth no less.
proof fn lemma_digits_grow(s: Seq<char>, n: int)
    requires
        0 <= n <= s.len(),
        all_digits(s, 10),
    ensures
        0 <= digits_value(s.take(n), 10) <= digits_value(s, 10),
    decreases s.len(),
{
    if n == s.len() {
        assert(s.take(n) =~= s);
        if n > 0 {
            assert(all_digits(s.drop_last(), 10));
            lemma_digits_grow(s.drop_last(), n - 1);
            assert(digit_value(s[n - 1]) < 10);
        }
    } else {
        let rest = s.drop_last();
        assert(rest.take(n) =~= s.take(n));
        assert(all_digits(rest, 10));
        lemma_digits_grow(rest, n);
        assert(digit_value(s[s.len() - 1]) < 10);
    }
}

/// The number that a text states.
pub fn parse_signed(s: &[char]) -> (n: Option<i64>)
    ensures
        match n {
            Some(v) => signed_number(s@) == Some(v as int),
            None => signed_number(s@) is None,
        },
{
    let signed: bool = s.len() > 0 && (s[0] == '+' || s[0] == '-');
    let negative: bool = s.len() > 0 && s[0] == '-';
    let from: usize = if signed {
        1
    } else {
        0
    };
    let ghost t = s@.skip(from as int);
    assert(!signed ==> t =~= s@);
    if from == s.len() {
        return None;
    }
    let mut value: u64 = 0;
    let mut i: usize = from;
    assert(t.take(0) =~= Seq::<char>::empty());
    while i < s.len()
        invariant
            from <= i <= s@.len(),
            from <= 1,
            t == s@.skip(from as int),
            value <= 0x8000_0000_0000_0000,
            value == digits_value(t.take(i - from), 10),
            all_digits(t.take(i - from), 10),
            signed_number(s@) is Some ==> all_digits(t, 10) && digits_value(t, 10)
                <= 0x8000_0000_0000_0000,
        decreases s@.len() - i,
    {
        let c: char = s[i];
        assert(t[i - from] == c);
        if c < '0' || '9' < c {
            assert(digit_value(t[i - from]) >= 10);
            return None;
        }
        let d: u64 = c as u64 - 48;
        proof {
            assert(t.take(i - from + 1).drop_last() =~= t.take(i - from));
            assert(t.take(i - from + 1).last() == c);
            assert(digits_value(t.take(i - from + 1), 10) == value * 10 + d);
            if all_digits(t, 10) {
                lemma_digits_grow(t, i - from + 1);
            }
        }
        if value > (0x8000_0000_0000_0000 - d) / 10 {
            return None;
        }
        value = value * 10 + d;
        assert(all_digits(t.take(i - from + 1), 10)) by {
            let w = t.take(i - from + 1);
            assert forall|j: int| 0 <= j < w.len() implies digit_value(#[trigger] w[j]) < 10 by {
                if j < i - from {
                    assert(w[j] == t.take(i - from)[j]);
                }
            }
        }
        i = i + 1;
    }
    assert(t.take(t.len() as int) =~= t);
    if negative {
        if value == 0x8000_0000_0000_0000 {
            Some(i64::MIN)
        } else {
            Some(-(value as i64))
        }
    } else if value == 0x8000_0000_0000_0000 {
        None
    } else {
        Some(value as i64)
    }
}

/// The moment that lies the given milliseconds behind the epoch.
pub uninterp spec fn millis_moment(millis: i64) -> Option<(i64, u32)>;

/// `chrono`'s `DateTime::from_timestamp_millis`: whether there is such a moment
/// depends on the number alone; it is named `millis_moment`. There is one from
/// the year 1 to the year 9999, and its seconds and nanoseconds are those of
/// the number.
#[verifier::external_body]
fn moment_of_millis(millis: i64) -> (found: Option<(i64, u32)>)
    ensures
        found == millis_moment(millis),
        -62_135_596_800_000 <= millis < 253_402_300_800_000 ==> found is Some,
        found matches Some((seconds, nanos)) ==> seconds == millis as int / 1000 && nanos == (
        millis as int % 1000) * 1_000_000,
{
    let moment = chrono::DateTime::from_timestamp_millis(millis)?;
    Some((moment.timestamp(), moment.timestamp_subsec_nanos()))
}

/// The moment of a message, where its date states one.
pub open spec fn date_of(internal_date: Option<Seq<char>>) -> Option<(i64, u32)> {
    match internal_date {
        Some(text) => match signed_number(text) {
            Some(millis) => millis_moment(millis as i64),
            None => None,
        },
        None => None,
    }
}

/// The moment of a message.
pub fn message_date(message: &GmailMessage) -> (date: Option<(i64, u32)>)
    ensures
        date == date_of(text_of(message.internal_date)),
{
    match &message.internal_date {
        Some(text) => match parse_signed(to_chars(text.as_str()).as_slice()) {
            Some(millis) => moment_of_millis(millis),
            None => None,
        },
        None => None,
    }
}

/// What a captured item takes from a message.
pub struct Letter {
    /// Seconds and nanoseconds since the epoch.
    pub date: Option<(i64, u32)>,
    /// The local offset at that moment, in seconds east of UTC.
    pub offset: i32,
    /// The date as text, in local time.
    pub shown: Option<String>,
    pub subject: Option<String>,
    pub from: Option<String>,
    pub text: Option<String>,
}

/// What a letter holds.
pub struct Mail {
    pub date: Option<(i64, u32)>,
    pub offset: i32,
    pub shown: Option<Seq<char>>,
    pub subject: Option<Seq<char>>,
    pub from: Option<Seq<char>>,
    pub text: Option<Seq<char>>,
}

impl View for Letter {
    type V = Mail;

    open spec fn view(&self) -> Mail {
        Mail {
            date: self.date,
            offset: self.offset,
            shown: text_of(self.shown),
            subject: text_of(self.subject),
            from: text_of(self.from),
            text: text_of(self.text),
        }
    }
}

impl Ranked for Letter {
    open spec fn before(a: Mail, b: Mail) -> bool {
        match (a.date, b.date) {
            (None, Some(_)) => true,
            (Some(m), Some(n)) => m.0 < n.0 || (m.0 == n.0 && m.1 < n.1),
            _ => false,
        }
    }

    fn is_before(&self, other: &Self) -> (yes: bool) {
        match (self.date, other.date) {
            (None, Some(_)) => true,
            (Some(m), Some(n)) => m.0 < n.0 || (m.0 == n.0 && m.1 < n.1),
            _ => false,
        }
    }
}

/// A sender with something to read.
pub open spec fn sender(from: Option<Seq<char>>) -> Option<Seq<char>> {
    match from {
        Some(f) => if trim(f).len() == 0 {
            None
        } else {
            Some(f)
        },
        None => None,
    }
}

/// A message's section in a thread: a heading with its sender and date, and its
/// text.
pub open spec fn section(mail: Mail) -> Seq<char> {
    "## "@ + (match mail.from {
        Some(f) => if collapsed(f).len() == 0 {
            "(unknown sender)"@
        } else {
            collapsed(f)
        },
        None => "(unknown sender)"@,
    }) + (match mail.shown {
        Some(shown) => " — "@ + shown,
        None => Seq::empty(),
    }) + seq!['\n'] + (match mail.text {
        Some(text) => if trim(text).len() == 0 {
            "\n_(no content)_\n"@
        } else {
            seq!['\n'] + trim(text) + seq!['\n']
        },
        None => "\n_(no content)_\n"@,
    })
}

/// The sections of a thread, with a blank line between each two.
pub open spec fn sections(mails: Seq<Mail>) -> Seq<char>
    decreases mails.len(),
{
    if mails.len() == 0 {
        Seq::empty()
    } else {
        sections(mails.drop_last()) + (if mails.len() > 1 {
            seq!['\n']
        } else {
            Seq::empty()
        }) + section(mails.last())
    }
}

/// The item that a thread's letters make, oldest first: the first one's subject
/// and sender, the last one's date, and the text of all.
pub open spec fn mail_item(
    mails: Seq<Mail>,
    account: Seq<char>,
    thread_id: Seq<char>,
    now: Moment,
) -> Item {
    Item {
        source: "gmail"@,
        external_id: thread_id,
        title: subject_title(
            if mails.len() > 0 && mails[0].subject is Some {
                mails[0].subject->0
            } else {
                Seq::empty()
            },
        ),
        from: if mails.len() > 0 {
            sender(mails[0].from)
        } else {
            None
        },
        url: None,
        link: Some(thread_url(account, thread_id)),
        body: if mails.len() == 0 {
            None
        } else if mails.len() == 1 {
            mails[0].text
        } else {
            Some(sections(mails))
        },
        occurred_at: Some(
            if mails.len() > 0 && mails.last().date is Some {
                Moment {
                    seconds: (mails.last().date->0).0,
                    nanos: (mails.last().date->0).1,
                    offset: mails.last().offset,
                }
            } else {
                now
            },
        ),
        due: None,
    }
}

/// Appends a message's section.
fn append_section(out: &mut Vec<char>, letter: &Letter)
    ensures
        final(out)@ == old(out)@ + section(letter@),
{
    append_str(out, "## ");
    let mut name: Vec<char> = Vec::new();
    if let Some(from) = &letter.from {
        name = collapse(to_chars(from.as_str()).as_slice());
    }
    if name.len() == 0 {
        name = to_chars("(unknown sender)");
    }
    append(out, name.as_slice());
    let ghost headed = out@;
    if let Some(shown) = &letter.shown {
        append_str(out, " — ");
        append_str(out, shown.as_str());
    }
    out.push('\n');
    let mut empty: bool = true;
    if let Some(text) = &letter.text {
        let chars = to_chars(text.as_str());
        let kept = trimmed(chars.as_slice());
        if kept.len() > 0 {
            empty = false;
            out.push('\n');
            append(out, kept);
            out.push('\n');
        }
    }
    if empty {
        append_str(out, "\n_(no content)_\n");
    }
    assert(out@ =~= old(out)@ + section(letter@));
}

/// The sections of a thread, in order.
pub fn thread_sections(letters: &Vec<Letter>) -> (text: String)
    ensures
        text@ == sections(views(letters@)),
{
    let ghost all = views(letters@);
    let mut out: Vec<char> = Vec::new();
    let mut i: usize = 0;
    assert(all.take(0) =~= Seq::<Mail>::empty());
    while i < letters.len()
        invariant
            i <= letters@.len(),
            all == views(letters@),
            out@ == sections(all.take(i as int)),
        decreases letters@.len() - i,
    {
        let ghost before = out@;
        proof {
            assert(all.take(i + 1).drop_last() =~= all.take(i as int));
            assert(all.take(i + 1).last() == letters@[i as int]@);
        }
        if i > 0 {
            out.push('\n');
        }
        append_section(&mut out, &letters[i]);
        assert(out@ =~= before + (if i > 0 {
            seq!['\n']
        } else {
            Seq::empty()
        }) + section(letters@[i as int]@));
        i = i + 1;
    }
    assert(all.take(all.len() as int) =~= all);
    from_chars(out.as_slice())
}

/// The item that a thread's letters make, in any order. A single message keeps
/// its bare text; more than one render as a section each, oldest first, so that
/// replies read in order.
pub fn item_of_letters(letters: Vec<Letter>, account: &str, thread_id: &str, now: Moment) -> (item:
    CapturedItem)
    ensures
        item@ == mail_item(sorted::<Letter>(views(letters@)), account@, thread_id@, now),
{
    let letters = sort(letters);
    let ghost mails = views(letters@);
    let n: usize = letters.len();
    let mut subject: String = own("");
    let mut from: Option<String> = None;
    let mut body: Option<String> = None;
    let mut occurred_at: Moment = now;
    proof {
        reveal_strlit("");
        assert(""@ =~= Seq::<char>::empty());
    }
    if n > 0 {
        assert(mails[0] == letters@[0]@);
        assert(mails.last() == letters@[n - 1]@);
        if let Some(s) = &letters[0].subject {
            subject = s.clone();
        }
        if let Some(f) = &letters[0].from {
            if trimmed(to_chars(f.as_str()).as_slice()).len() > 0 {
                from = Some(f.clone());
            }
        }
        if let Some((seconds, nanos)) = letters[n - 1].date {
            occurred_at = Moment { seconds, nanos, offset: letters[n - 1].offset };
        }
        if n == 1 {
            body = crate::inbox::copy_text(&letters[0].text);
        } else {
            body = Some(thread_sections(&letters));
        }
    }
    CapturedItem {
        source: "gmail",
        external_id: own(thread_id),
        title: sanitize_subject(subject.as_str()),
        from,
        url: None,
        link: Some(gmail_thread_url(account, thread_id)),
        body,
        occurred_at: Some(occurred_at),
        due: None,
    }
}

/// The messages of a thread are rendered oldest first, those without a date in
/// front, and none is lost.
pub proof fn replies_read_in_order(mails: Seq<Mail>)
    ensures
        ascending::<Letter>(sorted::<Letter>(mails)),
        sorted::<Letter>(mails).to_multiset() == mails.to_multiset(),
{
    crate::sort::lemma_sorted_ascending::<Letter>(mails);
    crate::sort::lemma_sorted_keeps::<Letter>(mails);
}

/// A header's value, decoded.
pub open spec fn decoded_header(payload: MessagePart, name: Seq<char>) -> Option<Seq<char>> {
    match header(payload.headers@, name) {
        Some(value) => Some(unworded(value, false)),
        None => None,
    }
}

/// What a captured item takes from a message, given the local offset at its
/// moment.
pub open spec fn letter_of(message: GmailMessage, offset: i32) -> Mail {
    let date = date_of(text_of(message.internal_date));
    Mail {
        date,
        offset,
        shown: match date {
            Some((seconds, _)) => moment_text(seconds, offset, "%Y-%m-%d %H:%M"@),
            None => None,
        },
        subject: decoded_header(message.payload, "Subject"@),
        from: decoded_header(message.payload, "From"@),
        text: message_text(message.payload),
    }
}

/// Whether a message is a draft.
pub open spec fn is_draft(message: GmailMessage) -> bool {
    strings(message.label_ids@).contains("DRAFT"@)
}

/// The letters of a thread: all messages but drafts, in order.
pub open spec fn thread_letters(messages: Seq<GmailMessage>, offsets: Seq<i32>) -> Seq<Mail>
    decreases messages.len(),
{
    if messages.len() == 0 {
        Seq::empty()
    } else {
        let above = thread_letters(messages.drop_last(), offsets);
        if is_draft(messages.last()) {
            above
        } else {
            above.push(letter_of(messages.last(), offsets[messages.len() - 1]))
        }
    }
}

/// A header's value, decoded.
fn read_header(payload: &MessagePart, name: &str) -> (value: Option<String>)
    ensures
        text_of(value) == decoded_header(*payload, name@),
{
    match header_value(payload, name) {
        Some(value) => Some(decode_rfc2047(value)),
        None => None,
    }
}

/// What a captured item takes from a message.
fn read_letter(message: &GmailMessage, offset: i32) -> (letter: Letter)
    ensures
        letter@ == letter_of(*message, offset),
{
    let date = message_date(message);
    let shown: Option<String> = match date {
        Some((seconds, _)) => format_moment(seconds, offset, "%Y-%m-%d %H:%M"),
        None => None,
    };
    Letter {
        date,
        offset,
        shown,
        subject: read_header(&message.payload, "Subject"),
        from: read_header(&message.payload, "From"),
        text: extract_text_body(&message.payload),
    }
}

/// One labeled thread as a captured item: sanitized subject and sender from the
/// first message, the latest message's date, every message's text but the
/// drafts', and a link back to the thread. `offsets` are the local offsets at
/// the messages' moments, `now` the moment for a thread without one.
pub fn captured_item(
    thread: &GmailThread,
    account: &str,
    thread_id: &str,
    offsets: &[i32],
    now: Moment,
) -> (item: CapturedItem)
    requires
        offsets@.len() == thread.messages@.len(),
    ensures
        item@ == mail_item(
            sorted::<Letter>(thread_letters(thread.messages@, offsets@)),
            account@,
            thread_id@,
            now,
        ),
{
    let ghost all = thread.messages@;
    let mut letters: Vec<Letter> = Vec::new();
    let mut i: usize = 0;
    assert(all.take(0) =~= Seq::<GmailMessage>::empty());
    assert(views(letters@) =~= Seq::<Mail>::empty());
    while i < thread.messages.len()
        invariant
            i <= thread.messages@.len(),
            all == thread.messages@,
            offsets@.len() == all.len(),
            views(letters@) == thread_letters(all.take(i as int), offsets@),
        decreases thread.messages@.len() - i,
    {
        let message = &thread.messages[i];
        let ghost before = letters@;
        proof {
            assert(all.take(i + 1).drop_last() =~= all.take(i as int));
            assert(all.take(i + 1).last() == *message);
        }
        if !list_holds(message.label_ids.as_slice(), "DRAFT") {
            let letter = read_letter(message, offsets[i]);
            letters.push(letter);
            assert(views(letters@) =~= views(before).push(letter@));
        }
        i = i + 1;
    }
    assert(all.take(all.len() as int) =~= all);
    item_of_letters(letters, account, thread_id, now)
}

} // verus!
