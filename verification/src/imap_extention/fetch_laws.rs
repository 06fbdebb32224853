//! What holds of the choice of the text to forward.

use crate::imap_extention::decode::{decoded_text, DecodeError};
use crate::imap_extention::fetch::{body_text, leaves_of, text_leaves};
use crate::imap_extention::mime::{is_multipart, Part};
use vstd::prelude::*;

verus! {

/// The leaves below two lists of parts, one after the other, are the
/// leaves below the one and then the leaves below the other.
pub proof fn lemma_leaves_of_both(a: Seq<Part>, b: Seq<Part>)
    ensures
        leaves_of(a + b) == leaves_of(a) + leaves_of(b),
    decreases b.len(),
{
    if b.len() == 0 {
        assert(a + b =~= a);
        assert(leaves_of(a) + leaves_of(b) =~= leaves_of(a));
    } else {
        assert((a + b).drop_last() =~= a + b.drop_last());
        assert((a + b).last() == b.last());
        lemma_leaves_of_both(a, b.drop_last());
        assert(leaves_of(a + b) =~= leaves_of(a) + leaves_of(b));
    }
}

/// Parts without a `text/plain` leaf give no leaves.
pub proof fn lemma_no_leaves(parts: Seq<Part>)
    requires
        forall|j: int| 0 <= j < parts.len() ==> text_leaves(#[trigger] parts[j]).len() == 0,
    ensures
        leaves_of(parts) == Seq::<Part>::empty(),
    decreases parts.len(),
{
    if parts.len() > 0 {
        assert forall|j: int| 0 <= j < parts.drop_last().len() implies text_leaves(
            #[trigger] parts.drop_last()[j],
        ).len() == 0 by {
            assert(parts.drop_last()[j] == parts[j]);
        }
        lemma_no_leaves(parts.drop_last());
        assert(text_leaves(parts.last()).len() == 0);
        assert(leaves_of(parts) =~= Seq::<Part>::empty());
    }
}

/// Among the parts of a container the first that holds a `text/plain` leaf
/// gives the first leaf: what stands behind it does not count, and what
/// stands before it and holds no such leaf does not either.
pub proof fn lemma_first_leaf_wins(parts: Seq<Part>, i: int)
    requires
        0 <= i < parts.len(),
        text_leaves(parts[i]).len() > 0,
        forall|j: int| 0 <= j < i ==> text_leaves(#[trigger] parts[j]).len() == 0,
    ensures
        leaves_of(parts).len() > 0,
        leaves_of(parts)[0] == text_leaves(parts[i])[0],
{
    let before = parts.take(i);
    let upto = parts.take(i + 1);
    let after = parts.skip(i + 1);
    assert(upto + after =~= parts);
    lemma_leaves_of_both(upto, after);
    assert(upto.drop_last() =~= before);
    assert(upto.last() == parts[i]);
    assert forall|j: int| 0 <= j < before.len() implies text_leaves(
        #[trigger] before[j],
    ).len() == 0 by {
        assert(before[j] == parts[j]);
    }
    lemma_no_leaves(before);
    assert(leaves_of(upto) =~= text_leaves(parts[i]));
}

/// The text of a container is the text of the first `text/plain` leaf
/// among its parts, in the order in which the parts stand.
pub proof fn lemma_text_of_container(container: Part, i: int)
    requires
        is_multipart(container.content_type),
        0 <= i < container.children.len(),
        text_leaves(container.children[i]).len() > 0,
        forall|j: int| 0 <= j < i ==> text_leaves(#[trigger] container.children[j]).len() == 0,
    ensures
        body_text(container) == decoded_text(
            text_leaves(container.children[i])[0].headers,
            text_leaves(container.children[i])[0].body,
        ),
{
    lemma_first_leaf_wins(container.children, i);
}

/// A message without a `text/plain` leaf has no text, and that is no
/// error.
pub proof fn lemma_no_leaf_no_text(part: Part)
    requires
        text_leaves(part).len() == 0,
    ensures
        body_text(part) == Ok::<Seq<char>, DecodeError>(Seq::empty()),
{
}

} // verus!
