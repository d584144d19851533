//! The order of the blocks in the tree.

use crate::proto_array::ProtoArrayView;
use crate::rule::is_ancestor;
use crate::types::Hash256;
use vstd::prelude::*;

verus! {

/// A block is an ancestor of itself.
pub proof fn law_ancestor_of_itself(tree: ProtoArrayView, root: Hash256)
    ensures
        is_ancestor(tree, root, root),
{
}

/// Every known member of a lineage is an ancestor of the block that the lineage starts from, down
/// to the first block of the tree.
pub proof fn law_lineage_is_made_of_ancestors(tree: ProtoArrayView, root: Hash256, i: int)
    requires
        0 <= i < tree.lineage(root).len(),
        tree.known(tree.lineage(root)[i]),
    ensures
        is_ancestor(tree, root, tree.lineage(root)[i]),
{
}

/// A parent is an ancestor of its child, and a child is none of its parent.
pub proof fn law_parent_is_ancestor(tree: ProtoArrayView, root: Hash256, parent: Hash256)
    requires
        tree.valid(),
        tree.known(root),
        tree.known(parent),
        tree.block(root).parent_root == Some(parent),
    ensures
        is_ancestor(tree, root, parent),
        !is_ancestor(tree, parent, root),
{
    tree.lemma_lineage_step(root);
    tree.lemma_lineage_step(parent);
    assert(tree.lineage(root)[1] == parent);
    if tree.lineage(parent).contains(root) {
        let j = tree.lineage(parent).index_of(root);
        assert(tree.lineage(root)[j + 1] == root);
        tree.lemma_lineage_slots(root, 0, j + 1);
    }
}

/// A block that the tree does not know is an ancestor of itself alone, and has no other ancestor.
pub proof fn law_unknown_block_has_no_relatives(
    tree: ProtoArrayView,
    unknown: Hash256,
    other: Hash256,
)
    requires
        tree.valid(),
        !tree.known(unknown),
        other != unknown,
    ensures
        !is_ancestor(tree, other, unknown),
        !is_ancestor(tree, unknown, other),
{
    tree.lemma_lineage_step(unknown);
}

/// An ancestor's own ancestors are those further down the lineage.
proof fn lemma_further_down(tree: ProtoArrayView, root: Hash256, i: int, j: int)
    requires
        tree.valid(),
        0 <= i <= j < tree.lineage(root).len(),
        tree.known(tree.lineage(root)[j]),
    ensures
        is_ancestor(tree, tree.lineage(root)[i], tree.lineage(root)[j]),
{
    let line = tree.lineage(root);
    tree.lemma_lineage_suffix(root, i);
    assert(line.skip(i)[j - i] == line[j]);
}

/// An ancestor of an ancestor is an ancestor.
pub proof fn law_ancestors_of_ancestors(
    tree: ProtoArrayView,
    root: Hash256,
    ancestor: Hash256,
    further: Hash256,
)
    requires
        tree.valid(),
        is_ancestor(tree, root, ancestor),
        is_ancestor(tree, ancestor, further),
    ensures
        is_ancestor(tree, root, further),
{
    if root != ancestor && ancestor != further {
        let line = tree.lineage(root);
        let i = line.index_of(ancestor);
        assert(line[i] == ancestor);
        tree.lemma_lineage_suffix(root, i);
        let j = tree.lineage(ancestor).index_of(further);
        assert(tree.lineage(ancestor)[j] == further);
        assert(line.skip(i)[j] == line[i + j]);
    }
}

/// Two blocks that are ancestors of each other are one block.
pub proof fn law_no_two_blocks_precede_each_other(tree: ProtoArrayView, a: Hash256, b: Hash256)
    requires
        tree.valid(),
        is_ancestor(tree, a, b),
        is_ancestor(tree, b, a),
    ensures
        a == b,
{
    if a != b {
        let line = tree.lineage(a);
        let i = line.index_of(b);
        assert(line[i] == b);
        tree.lemma_lineage_step(a);
        tree.lemma_lineage_suffix(a, i);
        let j = tree.lineage(b).index_of(a);
        assert(tree.lineage(b)[j] == a);
        assert(line.skip(i)[j] == line[i + j]);
        tree.lemma_lineage_slots(a, 0, i + j);
    }
}

/// An ancestor that is another block lies in an earlier slot.
pub proof fn law_ancestors_lie_in_earlier_slots(
    tree: ProtoArrayView,
    root: Hash256,
    ancestor: Hash256,
)
    requires
        tree.valid(),
        is_ancestor(tree, root, ancestor),
        root != ancestor,
    ensures
        tree.known(root),
        tree.known(ancestor),
        tree.slot(ancestor).0 < tree.slot(root).0,
{
    let line = tree.lineage(root);
    let i = line.index_of(ancestor);
    assert(line[i] == ancestor);
    tree.lemma_lineage_step(root);
    tree.lemma_lineage_slots(root, 0, i);
}

/// Of two ancestors of one block, the one in the earlier slot is an ancestor of the other.
pub proof fn law_ancestors_form_a_chain(
    tree: ProtoArrayView,
    root: Hash256,
    a: Hash256,
    b: Hash256,
)
    requires
        tree.valid(),
        tree.known(root),
        is_ancestor(tree, root, a),
        is_ancestor(tree, root, b),
        tree.slot(a).0 <= tree.slot(b).0,
    ensures
        is_ancestor(tree, b, a),
{
    tree.lemma_lineage_step(root);
    let line = tree.lineage(root);
    assert(line[0] == root);
    let i = line.index_of(a);
    let j = line.index_of(b);
    assert(line[i] == a);
    assert(line[j] == b);
    if i < j {
        tree.lemma_lineage_slots(root, i, j);
    } else {
        lemma_further_down(tree, root, j, i);
    }
}

} // verus!
