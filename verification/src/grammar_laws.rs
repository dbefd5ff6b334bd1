//! What holds of the grammar of synced lines: which lines are read, and as what.

use vstd::prelude::*;
use crate::format::is_hex;
use crate::line_laws::{good_mark, mark, task_head};
use crate::lines::{lemma_next_char, next_char};
use crate::settle::lemma_synced_of;
use crate::synced_line::{box_end, payload, synced, text_offset, time_token};
use crate::text::{all_white, is_white, lemma_lead_is};

verus! {

/// The front of a task: white space, a bullet, more white space, a box, and white
/// space behind it.
pub open spec fn task_front(
    indent: Seq<char>,
    bullet: char,
    gap: Seq<char>,
    check: char,
    space: Seq<char>,
) -> Seq<char> {
    indent + seq![bullet] + gap + seq!['[', check, ']'] + space
}

/// A task may have any of three bullets, any indentation, and a box that is empty
/// or ticked, in either letter case; nothing else is one.
#[verifier::spinoff_prover]
#[verifier::rlimit(40)]
pub proof fn tasks_are_told_by_bullet_and_box(
    indent: Seq<char>,
    bullet: char,
    gap: Seq<char>,
    check: char,
    space: Seq<char>,
)
    requires
        all_white(indent),
        all_white(gap),
        all_white(space),
        gap.len() > 0,
        space.len() > 0,
        !is_white(bullet),
    ensures
        task_head(task_front(indent, bullet, gap, check, space)) <==> (bullet == '-' || bullet
            == '*' || bullet == '+') && (check == ' ' || check == 'x' || check == 'X'),
        task_head(task_front(indent, bullet, gap, check, space)) ==> box_end(
            task_front(indent, bullet, gap, check, space),
        ) == Some((indent.len() + gap.len()) as int + 4),
{
    reveal(box_end);
    let head = task_front(indent, bullet, gap, check, space);
    let b = indent.len() as int;
    assert(head[b] == bullet);
    assert forall|i: int| 0 <= i < b implies is_white(#[trigger] head[i]) by {
        assert(head[i] == indent[i]);
    }
    lemma_lead_is(head, b);
    let behind = head.skip(b + 1);
    let k = gap.len() as int;
    assert(behind[k] == '[');
    assert(!is_white('['));
    assert forall|i: int| 0 <= i < k implies is_white(#[trigger] behind[i]) by {
        assert(behind[i] == gap[i]);
    }
    lemma_lead_is(behind, k);
    let at = b + 1 + k;
    assert(head[at] == '[' && head[at + 1] == check && head[at + 2] == ']');
    let rest = head.skip(at + 3);
    assert(rest =~= space);
}

/// A task whose box is not closed off from its text, or that has no box, is none
/// of the grammar.
pub proof fn boxes_are_closed_off(
    indent: Seq<char>,
    bullet: char,
    gap: Seq<char>,
    check: char,
    c: char,
    rest: Seq<char>,
)
    requires
        all_white(indent),
        all_white(gap),
        gap.len() > 0,
        !is_white(bullet),
        !is_white(c),
    ensures
        text_offset(indent + seq![bullet] + gap + seq!['[', check, ']', c] + rest) is None,
{
    reveal(box_end);
    reveal(text_offset);
    let line = indent + seq![bullet] + gap + seq!['[', check, ']', c] + rest;
    let b = indent.len() as int;
    assert(line[b] == bullet);
    assert forall|i: int| 0 <= i < b implies is_white(#[trigger] line[i]) by {
        assert(line[i] == indent[i]);
    }
    lemma_lead_is(line, b);
    let behind = line.skip(b + 1);
    let k = gap.len() as int;
    assert(behind[k] == '[');
    assert(!is_white('['));
    assert forall|i: int| 0 <= i < k implies is_white(#[trigger] behind[i]) by {
        assert(behind[i] == gap[i]);
    }
    lemma_lead_is(behind, k);
    let at = b + 1 + k;
    assert(line[at] == '[' && line[at + 1] == check && line[at + 2] == ']' && line[at + 3] == c);
    let tail = line.skip(at + 3);
    assert(tail[0] == c);
    lemma_lead_is(tail, 0);
}

/// A line of the grammar is read whole: its id and suffix from its marker, and its
/// text without a leading time, whatever its bullet, its box and its indentation
/// are.
#[verifier::spinoff_prover]
#[verifier::rlimit(40)]
pub proof fn synced_lines_are_read(
    indent: Seq<char>,
    bullet: char,
    gap: Seq<char>,
    check: char,
    space: Seq<char>,
    text: Seq<char>,
    behind: Seq<char>,
    id: Seq<char>,
    suffix: Option<Seq<char>>,
    end: Seq<char>,
)
    requires
        all_white(indent) && all_white(gap) && all_white(space) && all_white(behind) && all_white(
            end,
        ),
        gap.len() > 0,
        space.len() > 0,
        bullet == '-' || bullet == '*' || bullet == '+',
        check == ' ' || check == 'x' || check == 'X',
        good_mark(id, suffix),
        text.len() > 0,
        !is_white(text[0]) && !is_white(text.last()),
        time_token(text) is None,
    ensures
        ({
            let line = task_front(indent, bullet, gap, check, space) + text + behind + mark(
                id,
                suffix,
            ) + end;
            &&& synced(line) is Some
            &&& (synced(line)->0).id == id
            &&& (synced(line)->0).suffix == suffix
            &&& (synced(line)->0).start is None
            &&& (synced(line)->0).token_text() is None
            &&& (synced(line)->0).words() == text
        }),
{
    assert(!is_white(bullet));
    tasks_are_told_by_bullet_and_box(indent, bullet, gap, check, space);
    let head = task_front(indent, bullet, gap, check, space);
    lemma_synced_of(head, text, behind, id, suffix, end);
    assert(text.skip(0) =~= text);
    crate::settle::lemma_tight(text);
}

/// A marker's payload is a hexadecimal id, and small letters behind a colon where
/// it has one; anything else is no payload.
pub proof fn payloads_are_ids_with_a_suffix(p: Seq<char>)
    ensures
        payload(p) matches Some((id, suffix)) ==> id.len() > 0 && (forall|i: int|
            0 <= i < id.len() ==> is_hex(#[trigger] id[i])) && p == (match suffix {
            Some(s) => id + seq![':'] + s,
            None => id,
        }),
        p.len() == 0 ==> payload(p) is None,
        p.len() > 0 && !is_hex(p[0]) ==> payload(p) is None,
{
    lemma_next_char(p, ':', 0);
    crate::line_laws::lemma_payload_parts(p);
    if p.len() > 0 && !is_hex(p[0]) {
        let colon = next_char(p, ':', 0);
        if colon > 0 {
            assert(p.take(colon)[0] == p[0]);
        }
    }
}

} // verus!
