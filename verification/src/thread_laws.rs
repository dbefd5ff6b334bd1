//! What holds of mail as it is fetched: queries read back, headers and labels are
//! found whatever their letter case, and a thread's item holds all its letters.

use vstd::prelude::*;
use vstd::utf8::encode_utf8;
use crate::format::{ascii_lowered, decimal, lowercase};
use crate::gmail_google::{
    answer, date_of, decoded_header, form_byte, form_encoded, label_id, letter_of, mail_item,
    page_query, section, sections, signed_number, thread_letters, GmailLabel, GmailMessage, Letter,
    Mail,
};
use crate::gmail::{subject_title, thread_url};
use crate::html_laws::lemma_decimal_value;
use crate::inbox::text_of;
use crate::mime::{header, message_text, MessageHeader};
use crate::moments::{moment_text, Moment};
use crate::sort::{lemma_sorted_ascending, sorted};
use crate::text::{
    begins, ends, has, lemma_has, lemma_has_between, lemma_has_found, lemma_has_itself, trim,
};
use crate::words::collapsed;

verus! {

/// The value of a capital hexadecimal digit.
pub open spec fn big_hex_value(c: char) -> int {
    if c <= '9' {
        c as int - 48
    } else {
        c as int - 55
    }
}

/// The bytes that a query value stands for: a plus sign is a space, a percent
/// sign and two digits are a byte, any other character is its own.
pub open spec fn query_bytes(s: Seq<char>) -> Seq<u8>
    decreases s.len(),
{
    if s.len() == 0 {
        Seq::empty()
    } else if s[0] == '+' {
        seq![32u8] + query_bytes(s.skip(1))
    } else if s[0] == '%' && s.len() >= 3 {
        seq![(16 * big_hex_value(s[1]) + big_hex_value(s[2])) as u8] + query_bytes(s.skip(3))
    } else {
        seq![s[0] as u8] + query_bytes(s.skip(1))
    }
}

/// What a query carries reads back, byte for byte.
pub proof fn query_values_read_back(bytes: Seq<u8>)
    ensures
        query_bytes(form_encoded(bytes)) == bytes,
{
    lemma_query_bytes(bytes, Seq::empty());
    assert(form_encoded(bytes) + Seq::<char>::empty() =~= form_encoded(bytes));
    assert(query_bytes(Seq::empty()) =~= Seq::<u8>::empty());
    assert(bytes + Seq::<u8>::empty() =~= bytes);
}

#[verifier::spinoff_prover]
#[verifier::rlimit(40)]
proof fn lemma_query_bytes(bytes: Seq<u8>, rest: Seq<char>)
    ensures
        query_bytes(form_encoded(bytes) + rest) == bytes + query_bytes(rest),
    decreases bytes.len(),
{
    if bytes.len() == 0 {
        assert(form_encoded(bytes) + rest =~= rest);
        assert(bytes + query_bytes(rest) =~= query_bytes(rest));
    } else {
        let front = bytes.drop_last();
        let b = bytes.last();
        let tail = form_byte(b) + rest;
        lemma_query_bytes(front, tail);
        assert(form_encoded(bytes) + rest =~= form_encoded(front) + tail);
        if form_byte(b).len() == 1 {
            assert(tail.skip(1) =~= rest);
        } else {
            assert(tail[0] == '%');
            assert(tail.skip(3) =~= rest);
            assert(16 * (b as int / 16) + b as int % 16 == b);
        }
        assert(query_bytes(tail) =~= seq![b] + query_bytes(rest));
        assert(bytes =~= front.push(b));
        assert(front + (seq![b] + query_bytes(rest)) =~= bytes + query_bytes(rest));
    }
}

/// What a query carries cannot break out of it: no character of a value parts
/// pairs, names and values, or ends the query.
pub proof fn query_values_stay_apart(bytes: Seq<u8>)
    ensures
        forall|i: int|
            0 <= i < form_encoded(bytes).len() ==> !(seq!['&', '=', '#', '?', '/', ' '].contains(
                #[trigger] form_encoded(bytes)[i],
            )),
    decreases bytes.len(),
{
    if bytes.len() > 0 {
        let front = form_encoded(bytes.drop_last());
        let last = form_byte(bytes.last());
        query_values_stay_apart(bytes.drop_last());
        let all = form_encoded(bytes);
        let marks = seq!['&', '=', '#', '?', '/', ' '];
        assert forall|i: int| 0 <= i < all.len() implies !(marks.contains(#[trigger] all[i])) by {
            if i < front.len() {
                assert(all[i] == front[i]);
            } else {
                let c = last[i - front.len()];
                assert(all[i] == c);
                if marks.contains(c) {
                    let k = choose|k: int| 0 <= k < marks.len() && marks[k] == c;
                    assert(c == '&' || c == '=' || c == '#' || c == '?' || c == '/' || c == ' ');
                }
            }
        }
    }
}

/// The query for a page names the label and the page, and asks for a hundred
/// messages.
pub proof fn pages_are_asked_for(label: Seq<char>, page: Option<Seq<char>>)
    ensures
        begins(
            page_query(label, page),
            form_encoded(encode_utf8("labelIds"@)) + seq!['='] + form_encoded(encode_utf8(label)),
        ),
        has(
            page_query(label, page),
            seq!['&'] + form_encoded(encode_utf8("maxResults"@)) + seq!['='] + form_encoded(
                encode_utf8("100"@),
            ),
        ),
        page matches Some(token) ==> ends(
            page_query(label, page),
            seq!['&'] + form_encoded(encode_utf8("pageToken"@)) + seq!['='] + form_encoded(
                encode_utf8(token),
            ),
        ),
{
    let q = page_query(label, page);
    let a = form_encoded(encode_utf8("labelIds"@)) + seq!['='] + form_encoded(encode_utf8(label));
    let b = seq!['&'] + form_encoded(encode_utf8("maxResults"@)) + seq!['='] + form_encoded(
        encode_utf8("100"@),
    );
    let c = match page {
        Some(token) => seq!['&'] + form_encoded(encode_utf8("pageToken"@)) + seq!['=']
            + form_encoded(encode_utf8(token)),
        None => Seq::<char>::empty(),
    };
    assert(q =~= a + b + c);
    assert(q.subrange(0, a.len() as int) =~= a);
    lemma_has_itself(b);
    lemma_has(a, b, c, b);
    assert(q.subrange(q.len() - c.len(), q.len() as int) =~= c);
}

/// What an answer means: its status decides, and of a refusal its reason.
pub proof fn answers_are_told_apart(status: int, body: Seq<char>)
    ensures
        answer(status, body) is Unauthorized <==> status == 401,
        answer(status, body) is AuthRevoked <==> status == 403 && has(
            lowercase(body),
            "insufficient"@,
        ),
        answer(status, body) is Good <==> 200 <= status <= 299,
        answer(status, body) is Failed <==> !(200 <= status <= 299) && status != 401 && !(status
            == 403 && has(lowercase(body), "insufficient"@)),
{
    lemma_has_found(lowercase(body), "insufficient"@);
}

/// A label is found by its name, whatever its letter case; of two the first.
pub proof fn labels_are_found_by_name(labels: Seq<GmailLabel>, name: Seq<char>)
    ensures
        match label_id(labels, name) {
            Some(id) => exists|k: int|
                0 <= k < labels.len() && (#[trigger] labels[k]).id@ == id && ascii_lowered(
                    labels[k].name@,
                ) == ascii_lowered(name) && forall|j: int|
                    0 <= j < k ==> ascii_lowered((#[trigger] labels[j]).name@) != ascii_lowered(
                        name,
                    ),
            None => forall|j: int|
                0 <= j < labels.len() ==> ascii_lowered((#[trigger] labels[j]).name@)
                    != ascii_lowered(name),
        },
    decreases labels.len(),
{
    if labels.len() > 0 && ascii_lowered(labels[0].name@) != ascii_lowered(name) {
        let rest = labels.skip(1);
        labels_are_found_by_name(rest, name);
        assert forall|j: int| 0 < j < labels.len() implies #[trigger] labels[j] == rest[j - 1] by {}
        if let Some(id) = label_id(rest, name) {
            let k = choose|k: int|
                0 <= k < rest.len() && (#[trigger] rest[k]).id@ == id && ascii_lowered(
                    rest[k].name@,
                ) == ascii_lowered(name) && forall|j: int|
                    0 <= j < k ==> ascii_lowered((#[trigger] rest[j]).name@) != ascii_lowered(
                        name,
                    );
            assert(labels[k + 1] == rest[k]);
            assert forall|j: int| 0 <= j < k + 1 implies ascii_lowered((#[trigger] labels[j]).name@)
                != ascii_lowered(name) by {
                if j > 0 {
                    assert(labels[j] == rest[j - 1]);
                }
            }
        } else {
            assert forall|j: int|
                0 <= j < labels.len() implies ascii_lowered((#[trigger] labels[j]).name@)
                != ascii_lowered(name) by {
                if j > 0 {
                    assert(labels[j] == rest[j - 1]);
                }
            }
        }
    }
}

/// A header is found by its name, whatever its letter case; of two the first.
pub proof fn headers_are_found_by_name(headers: Seq<MessageHeader>, name: Seq<char>)
    ensures
        match header(headers, name) {
            Some(value) => exists|k: int|
                0 <= k < headers.len() && (#[trigger] headers[k]).value@ == value && ascii_lowered(
                    headers[k].name@,
                ) == ascii_lowered(name) && forall|j: int|
                    0 <= j < k ==> ascii_lowered((#[trigger] headers[j]).name@) != ascii_lowered(
                        name,
                    ),
            None => forall|j: int|
                0 <= j < headers.len() ==> ascii_lowered((#[trigger] headers[j]).name@)
                    != ascii_lowered(name),
        },
    decreases headers.len(),
{
    if headers.len() > 0 && ascii_lowered(headers[0].name@) != ascii_lowered(name) {
        let rest = headers.skip(1);
        headers_are_found_by_name(rest, name);
        if let Some(value) = header(rest, name) {
            let k = choose|k: int|
                0 <= k < rest.len() && (#[trigger] rest[k]).value@ == value && ascii_lowered(
                    rest[k].name@,
                ) == ascii_lowered(name) && forall|j: int|
                    0 <= j < k ==> ascii_lowered((#[trigger] rest[j]).name@) != ascii_lowered(
                        name,
                    );
            assert(headers[k + 1] == rest[k]);
            assert forall|j: int| 0 <= j < k + 1 implies ascii_lowered(
                (#[trigger] headers[j]).name@,
            ) != ascii_lowered(name) by {
                if j > 0 {
                    assert(headers[j] == rest[j - 1]);
                }
            }
        } else {
            assert forall|j: int|
                0 <= j < headers.len() implies ascii_lowered((#[trigger] headers[j]).name@)
                != ascii_lowered(name) by {
                if j > 0 {
                    assert(headers[j] == rest[j - 1]);
                }
            }
        }
    }
}

/// A number reads back as it is written, with a sign or without.
pub proof fn numbers_read_back(n: nat)
    requires
        n <= i64::MAX,
    ensures
        signed_number(decimal(n)) == Some(n as int),
        signed_number(seq!['+'] + decimal(n)) == Some(n as int),
        signed_number(seq!['-'] + decimal(n)) == Some(-(n as int)),
{
    lemma_decimal_value(n);
    let d = decimal(n);
    assert((seq!['+'] + d).skip(1) =~= d);
    assert((seq!['-'] + d).skip(1) =~= d);
}

/// The moment of a letter as one number; letters without one come first.
pub open spec fn moment_number(date: Option<(i64, u32)>) -> int {
    match date {
        Some((seconds, nanos)) => seconds * 0x1_0000_0000 + nanos,
        None => i64::MIN * 0x1_0000_0000 - 1,
    }
}

/// The letters of a thread go forward in time, and the item of a thread has the
/// moment of its last letter.
#[verifier::spinoff_prover]
#[verifier::rlimit(40)]
pub proof fn letters_go_forward_in_time(
    letters: Seq<Mail>,
    account: Seq<char>,
    thread_id: Seq<char>,
    now: Moment,
)
    ensures
        ({
            let s = sorted::<Letter>(letters);
            &&& forall|i: int, j: int|
                0 <= i < j < s.len() ==> moment_number((#[trigger] s[i]).date) <= moment_number(
                    (#[trigger] s[j]).date,
                )
            &&& forall|i: int|
                0 <= i < s.len() && (#[trigger] s[i]).date is Some ==> {
                    let at = mail_item(s, account, thread_id, now).occurred_at->0;
                    &&& mail_item(s, account, thread_id, now).occurred_at is Some
                    &&& moment_number(s[i].date) <= moment_number(Some((at.seconds, at.nanos)))
                }
            &&& (forall|i: int| 0 <= i < s.len() ==> (#[trigger] s[i]).date is None) ==> mail_item(
                s,
                account,
                thread_id,
                now,
            ).occurred_at == Some(now)
        }),
{
    let s = sorted::<Letter>(letters);
    lemma_sorted_ascending::<Letter>(letters);
    assert forall|i: int, j: int| 0 <= i < j < s.len() implies moment_number((#[trigger] s[i]).date)
        <= moment_number((#[trigger] s[j]).date) by {
        assert(!<Letter as crate::sort::Ranked>::before(s[j], s[i]));
    }
    assert forall|i: int| 0 <= i < s.len() && (#[trigger] s[i]).date is Some implies {
        let at = mail_item(s, account, thread_id, now).occurred_at->0;
        &&& mail_item(s, account, thread_id, now).occurred_at is Some
        &&& moment_number(s[i].date) <= moment_number(Some((at.seconds, at.nanos)))
    } by {
        let last = s.len() - 1;
        assert(s.last() == s[last]);
        if i < last {
            assert(moment_number(s[i].date) <= moment_number(s[last].date));
        }
    }
    if s.len() > 0 {
        assert(s.last() == s[s.len() - 1]);
    }
}

/// The name of a letter's sender, as its heading shows it.
pub open spec fn shown_sender(mail: Mail) -> Seq<char> {
    if mail.from is Some && collapsed(mail.from->0).len() > 0 {
        collapsed(mail.from->0)
    } else {
        "(unknown sender)"@
    }
}

/// Whether a text holds a letter: its sender and its moment in a heading, and its
/// text below that.
pub open spec fn holds_letter(body: Seq<char>, mail: Mail) -> bool {
    &&& has(body, "## "@ + shown_sender(mail))
    &&& mail.shown matches Some(shown) ==> has(body, " — "@ + shown + seq!['\n'])
    &&& match mail.text {
        Some(text) if trim(text).len() > 0 => has(body, seq!['\n'] + trim(text) + seq!['\n']),
        _ => has(body, "\n_(no content)_\n"@),
    }
}

/// A letter's section holds the letter.
proof fn lemma_section_holds(mail: Mail)
    ensures
        holds_letter(section(mail), mail),
{
    let s = section(mail);
    let none = Seq::<char>::empty();
    let a = "## "@ + shown_sender(mail);
    let b = match mail.shown {
        Some(shown) => " — "@ + shown,
        None => none,
    };
    let c = match mail.text {
        Some(text) => if trim(text).len() == 0 {
            "\n_(no content)_\n"@
        } else {
            seq!['\n'] + trim(text) + seq!['\n']
        },
        None => "\n_(no content)_\n"@,
    };
    assert(s =~= a + b + seq!['\n'] + c);
    assert(s =~= none + a + (b + seq!['\n'] + c));
    lemma_has_between(none, a, b + seq!['\n'] + c);
    if mail.shown is Some {
        assert(s =~= a + (b + seq!['\n']) + c);
        lemma_has_between(a, b + seq!['\n'], c);
    }
    assert(s =~= (a + b + seq!['\n']) + c + none);
    lemma_has_between(a + b + seq!['\n'], c, none);
}

proof fn lemma_holds_more(a: Seq<char>, s: Seq<char>, b: Seq<char>, mail: Mail)
    requires
        holds_letter(s, mail),
    ensures
        holds_letter(a + s + b, mail),
{
    lemma_has(a, s, b, "## "@ + shown_sender(mail));
    if mail.shown is Some {
        lemma_has(a, s, b, " — "@ + mail.shown->0 + seq!['\n']);
    }
    match mail.text {
        Some(text) if trim(text).len() > 0 => {
            lemma_has(a, s, b, seq!['\n'] + trim(text) + seq!['\n']);
        },
        _ => {
            lemma_has(a, s, b, "\n_(no content)_\n"@);
        },
    }
}

proof fn lemma_sections_hold(mails: Seq<Mail>, i: int)
    requires
        0 <= i < mails.len(),
    ensures
        holds_letter(sections(mails), mails[i]),
    decreases mails.len(),
{
    let none = Seq::<char>::empty();
    let rest = mails.drop_last();
    let gap = if mails.len() > 1 {
        seq!['\n']
    } else {
        none
    };
    let last = section(mails.last());
    if i == mails.len() - 1 {
        lemma_section_holds(mails[i]);
        lemma_holds_more(sections(rest) + gap, last, none, mails[i]);
        assert(sections(mails) =~= (sections(rest) + gap) + last + none);
    } else {
        lemma_sections_hold(rest, i);
        lemma_holds_more(none, sections(rest), gap + last, mails[i]);
        assert(sections(mails) =~= none + sections(rest) + (gap + last));
    }
}

/// The item of a thread loses none of its letters: a thread with one letter has
/// that letter's text, one with more has a section for each, in their order.
pub proof fn items_hold_their_letters(
    mails: Seq<Mail>,
    account: Seq<char>,
    thread_id: Seq<char>,
    now: Moment,
)
    ensures
        ({
            let item = mail_item(mails, account, thread_id, now);
            &&& item.external_id == thread_id
            &&& mails.len() == 1 ==> item.body == mails[0].text
            &&& mails.len() > 1 ==> item.body is Some && forall|i: int|
                0 <= i < mails.len() ==> holds_letter(item.body->0, #[trigger] mails[i])
        }),
{
    if mails.len() > 1 {
        assert forall|i: int| 0 <= i < mails.len() implies holds_letter(
            sections(mails),
            #[trigger] mails[i],
        ) by {
            lemma_sections_hold(mails, i);
        }
    }
}

/// Sections stand in the order of their letters, with a blank line between each
/// two.
pub proof fn sections_stand_in_order(a: Seq<Mail>, b: Seq<Mail>)
    requires
        a.len() > 0,
        b.len() > 0,
    ensures
        sections(a + b) == sections(a) + seq!['\n'] + sections(b),
    decreases b.len(),
{
    let rest = b.drop_last();
    assert((a + b).drop_last() =~= a + rest);
    assert((a + b).last() == b.last());
    if rest.len() == 0 {
        assert(a + rest =~= a);
        assert(sections(rest) =~= Seq::<char>::empty());
        assert(sections(b) =~= section(b.last()));
    } else {
        sections_stand_in_order(a, rest);
        assert(sections(a + b) =~= sections(a) + seq!['\n'] + sections(b));
    }
}

/// Every message of a thread gives a letter, unless it is a draft.
#[verifier::spinoff_prover]
#[verifier::rlimit(40)]
pub proof fn drafts_are_left_out(messages: Seq<GmailMessage>, offsets: Seq<i32>)
    ensures
        forall|i: int|
            0 <= i < messages.len() && !crate::lines::strings(
                (#[trigger] messages[i]).label_ids@,
            ).contains("DRAFT"@) ==> thread_letters(messages, offsets).contains(
                letter_of(messages[i], offsets[i]),
            ),
        forall|k: int|
            0 <= k < thread_letters(messages, offsets).len() ==> exists|i: int|
                0 <= i < messages.len() && !crate::lines::strings(
                    (#[trigger] messages[i]).label_ids@,
                ).contains("DRAFT"@) && #[trigger] thread_letters(messages, offsets)[k]
                    == letter_of(messages[i], offsets[i]),
    decreases messages.len(),
{
    if messages.len() > 0 {
        let rest = messages.drop_last();
        drafts_are_left_out(rest, offsets);
        let above = thread_letters(rest, offsets);
        let all = thread_letters(messages, offsets);
        let n = messages.len() - 1;
        assert forall|i: int|
            0 <= i < messages.len() && !crate::lines::strings(
                (#[trigger] messages[i]).label_ids@,
            ).contains("DRAFT"@) implies all.contains(letter_of(messages[i], offsets[i])) by {
            if i < n {
                assert(rest[i] == messages[i]);
                let l = letter_of(messages[i], offsets[i]);
                let k = choose|k: int| 0 <= k < above.len() && above[k] == l;
                assert(all[k] == l);
            } else {
                assert(all[all.len() - 1] == letter_of(messages[n], offsets[n]));
            }
        }
        assert forall|k: int| 0 <= k < all.len() implies exists|i: int|
            0 <= i < messages.len() && !crate::lines::strings(
                (#[trigger] messages[i]).label_ids@,
            ).contains("DRAFT"@) && #[trigger] all[k] == letter_of(messages[i], offsets[i]) by {
            if k < above.len() {
                assert(all[k] == above[k]);
                let i = choose|i: int|
                    0 <= i < rest.len() && !crate::lines::strings(
                        (#[trigger] rest[i]).label_ids@,
                    ).contains("DRAFT"@) && above[k] == letter_of(rest[i], offsets[i]);
                assert(messages[i] == rest[i]);
            } else {
                assert(messages[n] == messages.last());
            }
        }
    }
}

/// The item of a thread has its first letter's subject and sender, and leads to
/// the thread.
pub proof fn items_are_named_by_their_first_letter(
    mails: Seq<Mail>,
    account: Seq<char>,
    thread_id: Seq<char>,
    now: Moment,
)
    requires
        mails.len() > 0,
    ensures
        ({
            let item = mail_item(mails, account, thread_id, now);
            &&& item.source == "gmail"@
            &&& mails[0].subject matches Some(s) ==> item.title == subject_title(s)
            &&& mails[0].subject is None ==> item.title == subject_title(Seq::empty())
            &&& mails[0].from matches Some(f) ==> (trim(f).len() > 0 ==> item.from == Some(f))
            &&& mails[0].from is None || trim(mails[0].from->0).len() == 0 ==> item.from is None
            &&& item.link == Some(thread_url(account, thread_id))
            &&& item.url is None
            &&& item.due is None
        }),
{
}

/// A letter says what its message says: its subject and sender, decoded, its text
/// and its moment, as the reader's clock shows it.
pub proof fn letters_say_what_their_message_says(message: GmailMessage, offset: i32)
    ensures
        ({
            let l = letter_of(message, offset);
            &&& l.subject == decoded_header(message.payload, "Subject"@)
            &&& l.from == decoded_header(message.payload, "From"@)
            &&& l.text == message_text(message.payload)
            &&& l.date == date_of(text_of(message.internal_date))
            &&& l.offset == offset
            &&& l.date matches Some((seconds, _)) ==> l.shown == moment_text(
                seconds,
                offset,
                "%Y-%m-%d %H:%M"@,
            )
            &&& l.date is None ==> l.shown is None
        }),
{
}

} // verus!
