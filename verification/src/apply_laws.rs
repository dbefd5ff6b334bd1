//! What holds of edits: each does what it says, to the note's text as well.

use vstd::prelude::*;
use crate::calendar::{inserts_at, replace_at, Edit};
use crate::edit_laws::{lemma_block, lemma_edited, mid, within};
use crate::lines::{
    join, lemma_lines_of_ended, lemma_lines_of_joined, lemma_next_char_is, lines, single_lines,
    strip_cr,
};
use crate::reconcile::{edited, edited_note, inserted, rewritten};

verus! {

/// Without edits nothing changes.
pub proof fn no_edit_changes_nothing(lines: Seq<Seq<char>>)
    ensures
        edited(lines, Seq::empty()) == lines,
{
    let none = Seq::<Edit>::empty();
    assert(within(none, 0, 0));
    lemma_edited(lines, none, 0, 0);
    assert(mid(lines, none, 0, 0) =~= Seq::<Seq<char>>::empty());
    assert(inserted(none, 0) =~= Seq::<Seq<char>>::empty());
    assert(edited(lines, none) =~= lines);
}

/// Lines that are put before a row come to stand there, in order, and all others
/// stay.
pub proof fn lines_are_put_before_their_row(lines: Seq<Seq<char>>, row: int, block: Seq<Seq<char>>)
    requires
        0 <= row <= lines.len(),
    ensures
        edited(lines, inserts_at(row, block)) == lines.take(row) + block + lines.skip(row),
{
    let s = inserts_at(row, block);
    lemma_block(row, block);
    lemma_edited(lines, s, row, row);
    assert(mid(lines, s, row, row) + inserted(s, row) =~= block);
}

/// A line that is replaced is, and all others stay.
pub proof fn lines_are_replaced_in_their_row(lines: Seq<Seq<char>>, row: int, text: Seq<char>)
    requires
        0 <= row < lines.len(),
    ensures
        edited(lines, seq![replace_at(row, text)]) == lines.update(row, text),
{
    let s = seq![replace_at(row, text)];
    let none = Seq::<Seq<char>>::empty();
    assert(s.drop_last() =~= Seq::<Edit>::empty());
    assert(s.last() == replace_at(row, text));
    assert(within(s, row, row + 1));
    lemma_edited(lines, s, row, row + 1);
    assert(inserted(s.drop_last(), row) =~= none);
    assert(inserted(s.drop_last(), row + 1) =~= none);
    assert(inserted(s, row) =~= none);
    assert(inserted(s, row + 1) =~= none);
    assert(rewritten(s, row, lines[row]) == text);
    assert(mid(lines, s, row, row) =~= none);
    assert(mid(lines, s, row, row + 1) =~= seq![text]);
    assert(edited(lines, s) =~= lines.update(row, text));
}

/// Whether no line ends in a carriage return.
pub open spec fn no_returns(parts: Seq<Seq<char>>) -> bool {
    forall|i: int| 0 <= i < parts.len() ==> strip_cr(#[trigger] parts[i]) == parts[i]
}

proof fn lemma_stripped(parts: Seq<Seq<char>>)
    requires
        no_returns(parts),
    ensures
        parts.map_values(|p: Seq<char>| strip_cr(p)) == parts,
{
    assert(parts.map_values(|p: Seq<char>| strip_cr(p)) =~= parts);
}

/// Edits change the lines of a note's text and nothing else: its line feeds stay,
/// and so does the one at its end, where it has one.
pub proof fn edits_keep_the_line_feeds(parts: Seq<Seq<char>>, edits: Seq<Edit>)
    requires
        parts.len() > 0,
        single_lines(parts),
        no_returns(parts),
    ensures
        edited_note(join(parts, seq!['\n']) + seq!['\n'], edits) == join(
            edited(parts, edits),
            seq!['\n'],
        ) + seq!['\n'],
        parts.last().len() > 0 ==> edited_note(join(parts, seq!['\n']), edits) == join(
            edited(parts, edits),
            seq!['\n'],
        ),
{
    let note = join(parts, seq!['\n']);
    lemma_lines_of_ended(parts);
    lemma_stripped(parts);
    let ended = note + seq!['\n'];
    assert(ended.last() == '\n');
    if parts.last().len() > 0 {
        lemma_lines_of_joined(parts);
        let front = parts.drop_last();
        assert forall|i: int| 0 <= i < front.len() implies strip_cr(#[trigger] front[i])
            == front[i] by {
            assert(front[i] == parts[i]);
        }
        lemma_stripped(front);
        assert(front.push(parts.last()) =~= parts);
        lemma_last_char(parts);
    }
}

/// Joined lines end as the last of them does.
proof fn lemma_last_char(parts: Seq<Seq<char>>)
    requires
        parts.len() > 0,
        single_lines(parts),
        parts.last().len() > 0,
    ensures
        join(parts, seq!['\n']).len() > 0,
        join(parts, seq!['\n']).last() != '\n',
    decreases parts.len(),
{
    if parts.len() == 1 {
        assert(parts[0][parts[0].len() - 1] != '\n');
    } else {
        let rest = parts.skip(1);
        assert(rest.last() == parts.last());
        assert(single_lines(rest)) by {
            assert forall|i: int, j: int|
                0 <= i < rest.len() && 0 <= j < rest[i].len() implies #[trigger] rest[i][j]
                != '\n' by {
                assert(parts[i + 1][j] != '\n');
            }
        }
        lemma_last_char(rest);
        let tail = join(rest, seq!['\n']);
        assert(join(parts, seq!['\n']).last() == tail.last());
    }
}

/// A note without edits keeps its text.
pub proof fn unedited_notes_keep_their_text(parts: Seq<Seq<char>>)
    requires
        parts.len() > 0,
        single_lines(parts),
        no_returns(parts),
    ensures
        edited_note(join(parts, seq!['\n']) + seq!['\n'], Seq::empty()) == join(parts, seq!['\n'])
            + seq!['\n'],
        parts.last().len() > 0 ==> edited_note(join(parts, seq!['\n']), Seq::empty()) == join(
            parts,
            seq!['\n'],
        ),
{
    edits_keep_the_line_feeds(parts, Seq::empty());
    no_edit_changes_nothing(parts);
}

/// A line ends at a line feed, with or without a carriage return in front of it.
pub proof fn lines_end_at_line_feeds(a: Seq<char>, b: Seq<char>)
    requires
        !a.contains('\n'),
        strip_cr(a) == a,
    ensures
        lines(a + seq!['\n'] + b) == seq![a] + lines(b),
        lines(a + seq!['\r', '\n'] + b) == seq![a] + lines(b),
        a.len() > 0 ==> lines(a) == seq![a],
{
    let s = a + seq!['\n'] + b;
    let t = a + seq!['\r', '\n'] + b;
    let n = a.len() as int;
    assert forall|j: int| 0 <= j < n implies s[j] != '\n' && t[j] != '\n' && a[j] != '\n' by {
        assert(a.contains(a[j]));
    }
    assert(s[n] == '\n');
    lemma_next_char_is(s, '\n', 0, n);
    assert(s.take(n) =~= a);
    assert(s.skip(n + 1) =~= b);
    assert(t[n] == '\r' && t[n + 1] == '\n');
    lemma_next_char_is(t, '\n', 0, n + 1);
    let line = t.take(n + 1);
    assert(line.last() == '\r');
    assert(line.drop_last() =~= a);
    assert(t.skip(n + 2) =~= b);
    if n > 0 {
        lemma_next_char_is(a, '\n', 0, n);
    }
}

} // verus!
