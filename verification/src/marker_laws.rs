//! What holds of the scan for capture markers in the backlog and in the triage
//! log.

use vstd::prelude::*;
use vstd::utf8::{encode_utf8, is_ascii_chars_encode_utf8};
use crate::clean::{lacks, lemma_trim_ends};
use crate::format::is_hex;
use crate::settle::lemma_tight;
use crate::synced_line::all_hex;
use crate::text::{find, lemma_find_from, matches_at, trim};
use crate::words::{is_marker_id, marker_id, marker_ids};

verus! {

/// Whether a marker's opening begins with an angle bracket, and has no other.
pub open spec fn is_opening(open: Seq<char>) -> bool {
    open.len() > 0 && open[0] == '<' && forall|i: int|
        0 < i < open.len() ==> #[trigger] open[i] != '<'
}

/// A first occurrence is what the search finds.
pub proof fn lemma_find_is(s: Seq<char>, p: Seq<char>, at: int)
    requires
        matches_at(s, p, at),
        forall|j: int| 0 <= j < at ==> !#[trigger] matches_at(s, p, j),
    ensures
        find(s, p) == Some(at),
{
    lemma_find_from(s, p, 0);
    if find(s, p) is None {
        assert(!matches_at(s, p, at));
    } else {
        let k = find(s, p)->0;
        if at < k {
            assert(!matches_at(s, p, at));
        } else if k < at {
            assert(!matches_at(s, p, k));
        }
    }
}

/// An occurrence in the front of a text is one in the text, and the other way
/// round.
proof fn lemma_front_match(a: Seq<char>, b: Seq<char>, p: Seq<char>, j: int)
    requires
        0 <= j,
        j + p.len() <= a.len(),
    ensures
        matches_at(a + b, p, j) == matches_at(a, p, j),
{
    assert((a + b).subrange(j, j + p.len()) =~= a.subrange(j, j + p.len()));
}

/// Where a text with a marker behind it has its first opening: in the text, or
/// at the marker.
proof fn lemma_find_before_marker(t: Seq<char>, open: Seq<char>, tail: Seq<char>)
    requires
        is_opening(open),
    ensures
        find(t + (open + tail), open) == Some(
            match find(t, open) {
                Some(at) => at,
                None => t.len() as int,
            },
        ),
{
    let all = t + (open + tail);
    let n = t.len() as int;
    lemma_find_from(t, open, 0);
    let at = match find(t, open) {
        Some(at) => at,
        None => n,
    };
    if find(t, open) is Some {
        lemma_front_match(t, open + tail, open, at);
    } else {
        assert(all.subrange(n, n + open.len()) =~= open);
    }
    assert forall|j: int| 0 <= j < at implies !#[trigger] matches_at(all, open, j) by {
        if j + open.len() <= n {
            lemma_front_match(t, open + tail, open, j);
        } else if matches_at(all, open, j) {
            // The opening's own angle bracket would stand inside it.
            assert(all[n] == open[0]);
            assert(all.subrange(j, j + open.len())[n - j] == all[n]);
            assert(open[n - j] != '<');
        }
    }
    lemma_find_is(all, open, at);
}

/// Hexadecimal digits are one byte each.
proof fn lemma_hex_bytes(id: Seq<char>)
    requires
        all_hex(id),
    ensures
        encode_utf8(id).len() == id.len(),
{
    assert forall|i: int| 0 <= i < id.len() implies '\0' <= #[trigger] id[i] <= '\u{7f}' by {
        assert(is_hex(id[i]));
    }
    is_ascii_chars_encode_utf8(id);
}

/// A marker put behind a text adds exactly its id, whatever the text holds.
pub proof fn a_marker_adds_its_id(text: Seq<char>, open: Seq<char>, id: Seq<char>)
    requires
        is_opening(open),
        all_hex(id),
        1 <= id.len() <= 64,
    ensures
        marker_ids(text + (open + (id + "-->"@)), open) == marker_ids(text, open).push(id),
    decreases text.len(),
{
    reveal_strlit("-->");
    let tail = id + "-->"@;
    let all = text + (open + tail);
    let n = open.len() as int;
    lemma_find_before_marker(text, open, tail);
    lemma_find_from(text, open, 0);
    match find(text, open) {
        Some(at) => {
            let rest = text.skip(at + n);
            assert(all.skip(at + n) =~= rest + (open + tail));
            lemma_find_before_marker(rest, open, tail);
            lemma_find_from(rest, open, 0);
            let behind = rest + (open + tail);
            let chunk = match find(rest, open) {
                Some(end) => rest.take(end),
                None => rest,
            };
            assert(behind.take(find(behind, open)->0) =~= chunk);
            a_marker_adds_its_id(rest, open, id);
            let own = marker_id(chunk);
            let first = if is_marker_id(own) {
                seq![own]
            } else {
                Seq::empty()
            };
            assert(marker_ids(all, open) == first + marker_ids(behind, open));
            assert(marker_ids(text, open) == first + marker_ids(rest, open));
            assert(first + marker_ids(rest, open).push(id) =~= (first + marker_ids(
                rest,
                open,
            )).push(id));
        },
        None => {
            let rest = all.skip(text.len() + n);
            assert(rest =~= tail);
            lemma_lone_id(id, open);
            assert(marker_ids(all, open) =~= seq![id]);
            assert(marker_ids(text, open) =~= Seq::<Seq<char>>::empty());
        },
    }
}

/// The text behind a marker's opening is its id, with no other opening in it.
proof fn lemma_lone_id(id: Seq<char>, open: Seq<char>)
    requires
        is_opening(open),
        all_hex(id),
        1 <= id.len() <= 64,
    ensures
        find(id + "-->"@, open) is None,
        marker_id(id + "-->"@) == id,
        is_marker_id(id),
        marker_ids(id + "-->"@, open) == Seq::<Seq<char>>::empty(),
{
    reveal_strlit("-->");
    let tail = id + "-->"@;
    let n = id.len() as int;
    lemma_find_from(tail, open, 0);
    if let Some(at) = find(tail, open) {
        assert(tail.subrange(at, at + open.len())[0] == tail[at]);
        if at < n {
            assert(is_hex(id[at]));
        }
    }
    assert(tail.subrange(n, n + 3) =~= "-->"@);
    assert forall|j: int| 0 <= j < n implies !#[trigger] matches_at(tail, "-->"@, j) by {
        if matches_at(tail, "-->"@, j) {
            assert(tail.subrange(j, j + 3)[0] == tail[j]);
            assert(is_hex(id[j]));
        }
    }
    lemma_find_is(tail, "-->"@, n);
    assert(tail.take(n) =~= id);
    assert(is_hex(id[0]) && is_hex(id[n - 1]));
    lemma_tight(id);
    lemma_hex_bytes(id);
    if id.contains('\n') {
        let k = choose|k: int| 0 <= k < id.len() && id[k] == '\n';
        assert(is_hex(id[k]));
    }
}

/// Every id that the scan finds is one: trimmed, not empty, at most 64 bytes,
/// and on one line.
pub proof fn found_ids_are_ids(text: Seq<char>, open: Seq<char>)
    ensures
        forall|i: int|
            0 <= i < marker_ids(text, open).len() ==> is_marker_id(
                #[trigger] marker_ids(text, open)[i],
            ) && trim(marker_ids(text, open)[i]) == marker_ids(text, open)[i],
    decreases text.len(),
{
    if let Some(at) = find(text, open) {
        if open.len() > 0 && 0 <= at && at + open.len() <= text.len() {
            let rest = text.skip(at + open.len());
            found_ids_are_ids(rest, open);
            let chunk = match find(rest, open) {
                Some(end) => rest.take(end),
                None => rest,
            };
            let own = marker_id(chunk);
            let whole = match find(chunk, "-->"@) {
                Some(end) => chunk.take(end),
                None => chunk,
            };
            lemma_trim_ends(whole);
            lemma_tight(own);
            let first = if is_marker_id(own) {
                seq![own]
            } else {
                Seq::empty()
            };
            let all = marker_ids(text, open);
            assert(all == first + marker_ids(rest, open));
            assert forall|i: int| 0 <= i < all.len() implies is_marker_id(#[trigger] all[i])
                && trim(all[i]) == all[i] by {
                if i >= first.len() {
                    assert(all[i] == marker_ids(rest, open)[i - first.len()]);
                }
            }
        }
    }
}

/// A text without an opening has no marker.
pub proof fn no_opening_no_marker(text: Seq<char>, open: Seq<char>)
    requires
        lacks(text, open),
    ensures
        marker_ids(text, open) == Seq::<Seq<char>>::empty(),
{
    lemma_find_from(text, open, 0);
    if let Some(at) = find(text, open) {
        assert(!matches_at(text, open, at));
    }
}

/// A marker behind the backlog's text adds exactly its id to the ids found.
pub proof fn a_backlog_marker_adds_its_id(text: Seq<char>, id: Seq<char>)
    requires
        all_hex(id),
        1 <= id.len() <= 64,
    ensures
        forall|x: Seq<char>| #[trigger]
            marker_ids(text + "<!--gmail:"@ + id + "-->"@, "<!--gmail:"@).contains(x) == (
            marker_ids(text, "<!--gmail:"@).contains(x) || x == id),
{
    reveal_strlit("<!--gmail:");
    let open = "<!--gmail:"@;
    assert(text + open + id + "-->"@ =~= text + (open + (id + "-->"@)));
    a_marker_adds_its_id(text, open, id);
    lemma_pushed(marker_ids(text, open), id);
}

/// A marker behind the triage log's text adds exactly its id to the ids found.
pub proof fn a_triage_marker_adds_its_id(text: Seq<char>, id: Seq<char>)
    requires
        all_hex(id),
        1 <= id.len() <= 64,
    ensures
        forall|x: Seq<char>| #[trigger]
            marker_ids(text + "<!--inbox:"@ + id + "-->"@, "<!--inbox:"@).contains(x) == (
            marker_ids(text, "<!--inbox:"@).contains(x) || x == id),
{
    reveal_strlit("<!--inbox:");
    let open = "<!--inbox:"@;
    assert(text + open + id + "-->"@ =~= text + (open + (id + "-->"@)));
    a_marker_adds_its_id(text, open, id);
    lemma_pushed(marker_ids(text, open), id);
}

proof fn lemma_pushed(list: Seq<Seq<char>>, id: Seq<char>)
    ensures
        forall|x: Seq<char>| #[trigger]
            list.push(id).contains(x) == (list.contains(x) || x == id),
{
    assert forall|x: Seq<char>| #[trigger]
        list.push(id).contains(x) == (list.contains(x) || x == id) by {
        if list.contains(x) {
            let k = choose|k: int| 0 <= k < list.len() && list[k] == x;
            assert(list.push(id)[k] == x);
        }
        if list.push(id).contains(x) && x != id {
            let k = choose|k: int| 0 <= k < list.push(id).len() && list.push(id)[k] == x;
            assert(list[k] == x);
        }
        assert(list.push(id)[list.len() as int] == id);
    }
}

} // verus!
