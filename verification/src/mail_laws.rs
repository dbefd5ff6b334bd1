//! What holds of reading mail: which part of a message's MIME tree its text
//! comes from.

use vstd::prelude::*;
use crate::format::ascii_lowered;
use crate::mime::{body_data, leaf, leaf_from, message_text, MessagePart};

verus! {

/// The node of a MIME tree that a path of child positions leads to.
pub open spec fn node_at(part: MessagePart, path: Seq<int>) -> Option<MessagePart>
    decreases path.len(),
{
    if path.len() == 0 {
        Some(part)
    } else if 0 <= path[0] < part.parts@.len() {
        node_at(part.parts@[path[0]], path.skip(1))
    } else {
        None
    }
}

/// Whether a path leads to a node of the given type, letter case aside, that
/// has data.
pub open spec fn has_data(part: MessagePart, path: Seq<int>, mime_type: Seq<char>) -> bool {
    match node_at(part, path) {
        Some(node) => {
            &&& ascii_lowered(node.mime_type@) == ascii_lowered(mime_type)
            &&& node.body.data is Some
            &&& node.body.data->0@.len() > 0
        },
        None => false,
    }
}

/// The data of the node that a path leads to.
pub open spec fn data_at(part: MessagePart, path: Seq<int>) -> Seq<char> {
    (node_at(part, path)->0).body.data->0@
}

/// Whether a node stands before another in the message: above it, or in an
/// earlier branch.
pub open spec fn stands_before(a: Seq<int>, b: Seq<int>) -> bool
    decreases a.len(),
{
    if b.len() == 0 {
        false
    } else if a.len() == 0 {
        true
    } else if a[0] == b[0] {
        stands_before(a.skip(1), b.skip(1))
    } else {
        a[0] < b[0]
    }
}

/// Whether a path leads to the first node of a type that has data.
pub open spec fn is_first(part: MessagePart, path: Seq<int>, mime_type: Seq<char>) -> bool {
    &&& has_data(part, path, mime_type)
    &&& forall|other: Seq<int>| #[trigger]
        has_data(part, other, mime_type) ==> !stands_before(other, path)
}

/// Whether no node of the tree has the type and data.
pub open spec fn has_none(part: MessagePart, mime_type: Seq<char>) -> bool {
    forall|path: Seq<int>| !#[trigger] has_data(part, path, mime_type)
}

/// A path whose first step is `i`.
proof fn lemma_step(part: MessagePart, i: int, path: Seq<int>, mime_type: Seq<char>)
    requires
        0 <= i < part.parts@.len(),
    ensures
        has_data(part, seq![i] + path, mime_type) == has_data(part.parts@[i], path, mime_type),
        data_at(part, seq![i] + path) == data_at(part.parts@[i], path),
{
    assert((seq![i] + path).skip(1) =~= path);
}

proof fn lemma_first_leaf(part: MessagePart, mime_type: Seq<char>)
    ensures
        match leaf(part, mime_type) {
            Some(data) => exists|path: Seq<int>| #[trigger]
                is_first(part, path, mime_type) && data_at(part, path) == data,
            None => has_none(part, mime_type),
        },
    decreases part, part.parts@.len() + 1,
{
    let here = Seq::<int>::empty();
    assert(node_at(part, here) == Some(part));
    if has_data(part, here, mime_type) {
        assert forall|other: Seq<int>| #[trigger] has_data(part, other, mime_type) implies
            !stands_before(other, here) by {}
        assert(is_first(part, here, mime_type));
        assert(leaf(part, mime_type) == Some(data_at(part, here)));
    } else {
        lemma_first_leaf_from(part, mime_type, 0);
        match leaf_from(part, mime_type, 0) {
            Some(data) => {
                let path = choose|path: Seq<int>|
                    path.len() > 0 && #[trigger] has_data(part, path, mime_type) && data_at(
                        part,
                        path,
                    ) == data && forall|other: Seq<int>|
                        other.len() > 0 && #[trigger] has_data(part, other, mime_type)
                            ==> !stands_before(other, path);
                assert forall|other: Seq<int>| #[trigger] has_data(part, other, mime_type) implies
                    !stands_before(other, path) by {
                    if other.len() == 0 {
                        assert(other =~= here);
                    }
                }
                assert(is_first(part, path, mime_type));
            },
            None => {
                assert forall|path: Seq<int>| !#[trigger] has_data(part, path, mime_type) by {
                    if path.len() == 0 {
                        assert(path =~= here);
                    }
                }
            },
        }
    }
}

proof fn lemma_first_leaf_from(part: MessagePart, mime_type: Seq<char>, from: nat)
    ensures
        match leaf_from(part, mime_type, from) {
            Some(data) => exists|path: Seq<int>|
                path.len() > 0 && path[0] >= from && #[trigger] has_data(part, path, mime_type)
                    && data_at(part, path) == data && forall|other: Seq<int>|
                    other.len() > 0 && other[0] >= from && #[trigger] has_data(
                        part,
                        other,
                        mime_type,
                    ) ==> !stands_before(other, path),
            None => forall|path: Seq<int>|
                path.len() > 0 && path[0] >= from ==> !#[trigger] has_data(part, path, mime_type),
        },
    decreases part, part.parts@.len() - from,
{
    if from < part.parts@.len() {
        let i = from as int;
        let child = part.parts@[i];
        assert(decreases_to!(part => part.parts@[i]));
        lemma_first_leaf(child, mime_type);
        lemma_first_leaf_from(part, mime_type, from + 1);
        match leaf(child, mime_type) {
            Some(data) => {
                let below = choose|path: Seq<int>| #[trigger]
                    is_first(child, path, mime_type) && data_at(child, path) == data;
                let path = seq![i] + below;
                lemma_step(part, i, below, mime_type);
                assert forall|other: Seq<int>|
                    other.len() > 0 && other[0] >= from && #[trigger] has_data(
                        part,
                        other,
                        mime_type,
                    ) implies !stands_before(other, path) by {
                    if other[0] == i {
                        assert(other =~= seq![i] + other.skip(1));
                        lemma_step(part, i, other.skip(1), mime_type);
                        assert(path.skip(1) =~= below);
                    }
                }
                assert(has_data(part, path, mime_type));
            },
            None => {
                assert forall|other: Seq<int>|
                    other.len() > 0 && other[0] == i implies !#[trigger] has_data(
                    part,
                    other,
                    mime_type,
                ) by {
                    assert(other =~= seq![i] + other.skip(1));
                    lemma_step(part, i, other.skip(1), mime_type);
                    assert(!has_data(child, other.skip(1), mime_type));
                }
                if leaf_from(part, mime_type, from + 1) is Some {
                    let data = leaf_from(part, mime_type, from + 1)->0;
                    let path = choose|path: Seq<int>|
                        path.len() > 0 && path[0] >= from + 1 && #[trigger] has_data(
                            part,
                            path,
                            mime_type,
                        ) && data_at(part, path) == data && forall|other: Seq<int>|
                            other.len() > 0 && other[0] >= from + 1 && #[trigger] has_data(
                                part,
                                other,
                                mime_type,
                            ) ==> !stands_before(other, path);
                    assert forall|other: Seq<int>|
                        other.len() > 0 && other[0] >= from && #[trigger] has_data(
                            part,
                            other,
                            mime_type,
                        ) implies !stands_before(other, path) by {
                        assert(other[0] != i);
                    }
                    assert(has_data(part, path, mime_type));
                }
            },
        }
    } else {
        assert forall|path: Seq<int>| path.len() > 0 && path[0] >= from implies !#[trigger] has_data(
            part,
            path,
            mime_type,
        ) by {}
    }
}

/// The leaf that is found is the first node of its type that has data, at
/// whatever depth it lies; none is found only where the whole tree has none.
#[verifier::spinoff_prover]
#[verifier::rlimit(40)]
pub proof fn the_first_leaf_is_found(part: MessagePart, mime_type: Seq<char>)
    ensures
        match leaf(part, mime_type) {
            Some(data) => exists|path: Seq<int>| #[trigger]
                is_first(part, path, mime_type) && data_at(part, path) == data,
            None => has_none(part, mime_type),
        },
        forall|path: Seq<int>| #[trigger]
            has_data(part, path, mime_type) ==> leaf(part, mime_type) is Some,
        forall|path: Seq<int>| #[trigger]
            is_first(part, path, mime_type) ==> leaf(part, mime_type) == Some(data_at(part, path)),
{
    lemma_first_leaf(part, mime_type);
    assert forall|path: Seq<int>| #[trigger] is_first(part, path, mime_type) implies leaf(
        part,
        mime_type,
    ) == Some(data_at(part, path)) by {
        assert(has_data(part, path, mime_type));
        let data = leaf(part, mime_type)->0;
        let found = choose|other: Seq<int>| #[trigger]
            is_first(part, other, mime_type) && data_at(part, other) == data;
        assert(has_data(part, found, mime_type));
        lemma_one_before(path, found);
        lemma_same_node(part, path, found);
    }
}

/// Of two different paths one stands before the other.
proof fn lemma_one_before(a: Seq<int>, b: Seq<int>)
    requires
        !stands_before(a, b),
        !stands_before(b, a),
    ensures
        a == b,
    decreases a.len(),
{
    if a.len() > 0 && b.len() > 0 {
        lemma_one_before(a.skip(1), b.skip(1));
        assert(a =~= seq![a[0]] + a.skip(1));
        assert(b =~= seq![b[0]] + b.skip(1));
    } else {
        assert(a =~= b);
    }
}

proof fn lemma_same_node(part: MessagePart, a: Seq<int>, b: Seq<int>)
    requires
        a == b,
    ensures
        data_at(part, a) == data_at(part, b),
{
}

/// A message's text is that of its first plain-text node, wherever in the tree
/// that is, even where it cannot be decoded; only a message without any is read
/// from its first HTML node, and one without either has no text.
#[verifier::spinoff_prover]
#[verifier::rlimit(40)]
pub proof fn plain_text_wins(payload: MessagePart, plain: Seq<int>, html: Seq<int>)
    ensures
        is_first(payload, plain, "text/plain"@) ==> message_text(payload) == body_data(
            data_at(payload, plain),
        ),
        has_none(payload, "text/plain"@) && is_first(payload, html, "text/html"@)
            ==> message_text(payload) == (match body_data(data_at(payload, html)) {
            Some(text) => Some(crate::html::plain_text(text)),
            None => None,
        }),
        has_none(payload, "text/plain"@) && has_none(payload, "text/html"@)
            ==> message_text(payload) is None,
{
    the_first_leaf_is_found(payload, "text/plain"@);
    the_first_leaf_is_found(payload, "text/html"@);
    if has_none(payload, "text/plain"@) && leaf(payload, "text/plain"@) is Some {
        let path = choose|path: Seq<int>| #[trigger] is_first(payload, path, "text/plain"@);
        assert(has_data(payload, path, "text/plain"@));
    }
    if has_none(payload, "text/html"@) && leaf(payload, "text/html"@) is Some {
        let path = choose|path: Seq<int>| #[trigger] is_first(payload, path, "text/html"@);
        assert(has_data(payload, path, "text/html"@));
    }
}

} // verus!
