//! The block tree that fork choice walks, with the votes and weights attached to it.

use crate::root_map::RootMap;
use crate::types::{epoch_of, Checkpoint, Epoch, Hash256, Slot};
use vstd::prelude::*;

verus! {

/// A block of the tree.
#[derive(Debug, Clone, Copy, PartialEq, Eq, Structural)]
pub struct ProtoBlock {
    /// The slot of the block.
    pub slot: Slot,
    /// The root of the block.
    pub root: Hash256,
    /// The root of the parent; the first block of the tree has none.
    pub parent_root: Option<Hash256>,
    /// The checkpoint that this block would justify if its epoch ended now.
    pub unrealized_justified_checkpoint: Option<Checkpoint>,
}

/// The stake behind a block.
#[derive(Debug, Clone, Copy, PartialEq, Eq, Structural)]
pub struct BlockWeights {
    /// The attesting balance, without any proposer boost.
    pub support: Option<u64>,
    /// The attesting balance with the proposer boost that is in force.
    pub boosted: Option<u64>,
    /// The score that a timely proposal of this block is worth.
    pub proposer_score: Option<u64>,
}

/// A block together with the stake behind it.
#[derive(Debug, Clone, Copy, PartialEq, Eq, Structural)]
pub struct ProtoNode {
    /// The block.
    pub block: ProtoBlock,
    /// The stake behind the block.
    pub weights: BlockWeights,
}

/// The latest vote of a validator.
#[derive(Debug, Clone, Copy, PartialEq, Eq, Structural)]
pub struct LatestMessage {
    /// The block that the validator voted for.
    pub root: Hash256,
    /// The epoch of the vote's target.
    pub epoch: Epoch,
}

/// What a block tree holds: its nodes by root, and the validators' votes by index.
#[verifier::ext_equal]
pub struct ProtoArrayView {
    pub nodes: Map<Hash256, ProtoNode>,
    pub votes: Seq<Option<LatestMessage>>,
}

impl ProtoArrayView {
    /// Whether the tree holds a block with this root.
    pub open spec fn known(self, root: Hash256) -> bool {
        self.nodes.contains_key(root)
    }

    /// The block with this root, for a root that is known.
    pub open spec fn block(self, root: Hash256) -> ProtoBlock {
        self.nodes[root].block
    }

    /// The slot of the block with this root, for a root that is known.
    pub open spec fn slot(self, root: Hash256) -> Slot {
        self.nodes[root].block.slot
    }

    /// The epoch of the block with this root, for a root that is known.
    pub open spec fn epoch(self, root: Hash256, slots_per_epoch: u64) -> Epoch {
        epoch_of(self.slot(root), slots_per_epoch)
    }

    /// The latest vote of a validator.
    pub open spec fn vote(self, validator_index: int) -> Option<LatestMessage> {
        if 0 <= validator_index < self.votes.len() {
            self.votes[validator_index]
        } else {
            None
        }
    }

    /// Each block stands under its own root, and comes in a later slot than its parent.
    pub open spec fn valid(self) -> bool {
        &&& forall|root: Hash256| #[trigger] self.known(root) ==> self.block(root).root == root
        &&& forall|root: Hash256| #[trigger]
            self.known(root) ==> match self.block(root).parent_root {
                Some(parent) => self.known(parent) ==> self.slot(parent).0 < self.slot(root).0,
                None => true,
            }
    }

    /// How far down the tree a root can lie.
    pub open spec fn height(self, root: Hash256) -> nat {
        if self.known(root) {
            self.slot(root).0 as nat + 1
        } else {
            0
        }
    }

    /// The root, its parent, the parent of that, and so on, until a block has no parent or is not
    /// known.
    pub open spec fn lineage(self, root: Hash256) -> Seq<Hash256>
        decreases self.height(root),
    {
        if self.known(root) {
            match self.block(root).parent_root {
                Some(parent) => if self.height(parent) < self.height(root) {
                    seq![root] + self.lineage(parent)
                } else {
                    seq![root]
                },
                None => seq![root],
            }
        } else {
            seq![root]
        }
    }

    /// Whether both blocks are known and `ancestor` is `descendant` or one of those before it.
    pub open spec fn is_descendant(self, ancestor: Hash256, descendant: Hash256) -> bool {
        self.known(ancestor) && self.lineage(descendant).contains(ancestor)
    }

    /// A lineage starts with the root it belongs to, and continues with the parent's lineage.
    pub proof fn lemma_lineage_step(self, root: Hash256)
        requires
            self.valid(),
        ensures
            self.lineage(root).len() > 0,
            self.lineage(root)[0] == root,
            match self.block(root).parent_root {
                Some(parent) if self.known(root) => self.lineage(root) == seq![root]
                    + self.lineage(parent),
                _ => self.lineage(root) == seq![root],
            },
    {
    }

    /// From any of its members on, a lineage is that member's own lineage.
    pub proof fn lemma_lineage_suffix(self, root: Hash256, i: int)
        requires
            self.valid(),
            0 <= i < self.lineage(root).len(),
        ensures
            self.lineage(self.lineage(root)[i]) == self.lineage(root).skip(i),
        decreases i,
    {
        self.lemma_lineage_step(root);
        if i == 0 {
            assert(self.lineage(root).skip(0) =~= self.lineage(root));
        } else {
            let parent = self.block(root).parent_root->0;
            self.lemma_lineage_suffix(parent, i - 1);
            assert(self.lineage(root)[i] == self.lineage(parent)[i - 1]);
            assert(self.lineage(root).skip(i) =~= self.lineage(parent).skip(i - 1));
        }
    }

    /// Every member of a lineage but the last is known, and names the next one as its parent.
    pub proof fn lemma_lineage_parent(self, root: Hash256, i: int)
        requires
            self.valid(),
            0 <= i < self.lineage(root).len() - 1,
        ensures
            self.known(self.lineage(root)[i]),
            self.block(self.lineage(root)[i]).parent_root == Some(self.lineage(root)[i + 1]),
    {
        self.lemma_lineage_suffix(root, i);
        let member = self.lineage(root)[i];
        self.lemma_lineage_step(member);
        assert(self.lineage(member).len() == self.lineage(root).len() - i);
        assert(self.lineage(member)[1] == self.lineage(root)[i + 1]);
        let parent = self.block(member).parent_root->0;
        self.lemma_lineage_step(parent);
    }

    /// The last member of a lineage is not known, or has no parent.
    pub proof fn lemma_lineage_end(self, root: Hash256)
        requires
            self.valid(),
        ensures
            self.lineage(root).len() > 0,
            self.known(self.lineage(root).last()) ==> self.block(
                self.lineage(root).last(),
            ).parent_root is None,
    {
        self.lemma_lineage_step(root);
        let last = self.lineage(root).len() - 1;
        self.lemma_lineage_suffix(root, last);
        self.lemma_lineage_step(self.lineage(root)[last]);
        if self.known(self.lineage(root)[last]) && self.block(
            self.lineage(root)[last],
        ).parent_root is Some {
            let parent = self.block(self.lineage(root)[last]).parent_root->0;
            self.lemma_lineage_step(parent);
        }
    }

    /// Slots fall strictly along a lineage.
    pub proof fn lemma_lineage_slots(self, root: Hash256, i: int, j: int)
        requires
            self.valid(),
            0 <= i < j < self.lineage(root).len(),
        ensures
            self.known(self.lineage(root)[i]),
            self.known(self.lineage(root)[j]) ==> self.slot(self.lineage(root)[j]).0 < self.slot(
                self.lineage(root)[i],
            ).0,
            self.lineage(root)[i] != self.lineage(root)[j],
        decreases j - i,
    {
        self.lemma_lineage_parent(root, i);
        if i + 1 < j {
            self.lemma_lineage_slots(root, i + 1, j);
        }
    }
}

/// A tree of blocks, with the validators' latest votes.
///
/// It holds what the confirmation rule reads of the fork choice's own block array.
pub struct ProtoArrayForkChoice {
    nodes: RootMap<ProtoNode>,
    votes: Vec<Option<LatestMessage>>,
}

impl View for ProtoArrayForkChoice {
    type V = ProtoArrayView;

    closed spec fn view(&self) -> ProtoArrayView {
        ProtoArrayView { nodes: self.nodes@, votes: self.votes@ }
    }
}

impl ProtoArrayForkChoice {
    /// The tree is valid.
    pub closed spec fn wf(&self) -> bool {
        self.nodes.wf() && self@.valid()
    }

    /// What a well-formed tree keeps.
    pub proof fn lemma_valid(&self)
        requires
            self.wf(),
        ensures
            self@.valid(),
    {
    }

    /// A tree without blocks and votes.
    pub fn new() -> (r: ProtoArrayForkChoice)
        ensures
            r.wf(),
            r@.nodes == Map::<Hash256, ProtoNode>::empty(),
            r@.votes == Seq::<Option<LatestMessage>>::empty(),
    {
        ProtoArrayForkChoice { nodes: RootMap::new(), votes: Vec::new() }
    }

    /// The number of blocks.
    pub fn len(&self) -> (r: usize)
        requires
            self.wf(),
        ensures
            r == self@.nodes.len(),
    {
        self.nodes.len()
    }

    /// Adds a node, unless its root is taken or its slot does not lie between those of its parent
    /// and of the blocks that name it as their parent. Says whether the node was added.
    pub fn insert_block(&mut self, node: ProtoNode) -> (r: bool)
        requires
            old(self).wf(),
        ensures
            final(self).wf(),
            r == fits(old(self)@, node.block),
            final(self)@.nodes == (if r {
                old(self)@.nodes.insert(node.block.root, node)
            } else {
                old(self)@.nodes
            }),
            final(self)@.votes == old(self)@.votes,
    {
        let root = node.block.root;
        let slot = node.block.slot;
        if self.nodes.contains_key(&root) {
            return false;
        }
        if let Some(parent_root) = node.block.parent_root {
            if parent_root == root {
                return false;
            }
            if let Some(parent) = self.nodes.get(&parent_root) {
                assert(self@.known(parent_root));
                if parent.block.slot.0 >= slot.0 {
                    return false;
                }
            }
        }
        proof {
            self.nodes.lemma_order();
        }
        let count = self.nodes.len();
        let mut i: usize = 0;
        while i < count
            invariant
                self.wf(),
                self.nodes.wf(),
                self@.nodes == self.nodes@,
                self == old(self),
                root == node.block.root,
                slot == node.block.slot,
                i <= count,
                count == self.nodes.order().len(),
                forall|k: Hash256| #[trigger]
                    self.nodes@.contains_key(k) <==> self.nodes.order().contains(k),
                forall|j: int|
                    0 <= j < i ==> #[trigger] below_child(
                        self@,
                        node.block,
                        self.nodes.order()[j],
                    ),
            decreases count - i,
        {
            let (child_root, child) = self.nodes.entry(i);
            if let Some(parent_of_child) = child.block.parent_root {
                if parent_of_child == root && child.block.slot.0 <= slot.0 {
                    assert(self@.known(child_root));
                    assert(!below_child(self@, node.block, child_root));
                    return false;
                }
            }
            i = i + 1;
        }
        assert forall|child: Hash256| self@.known(child) implies below_child(
            self@,
            node.block,
            child,
        ) by {
            assert(self.nodes@.contains_key(child));
            let j = self.nodes.order().index_of(child);
            assert(below_child(self@, node.block, self.nodes.order()[j]));
        }
        self.nodes.insert(root, node);
        proof {
            let now = self@;
            let before = old(self)@;
            assert forall|r: Hash256| #[trigger] now.known(r) implies match now.block(
                r,
            ).parent_root {
                Some(parent) => now.known(parent) ==> now.slot(parent).0 < now.slot(r).0,
                None => true,
            } by {
                if r != root {
                    assert(before.known(r));
                    assert(below_child(before, node.block, r));
                } else if node.block.parent_root is Some {
                    assert(before.known(node.block.parent_root->0) || !now.known(
                        node.block.parent_root->0,
                    ));
                }
            }
            assert forall|r: Hash256| #[trigger] now.known(r) implies now.block(r).root == r by {
                if r != root {
                    assert(before.known(r));
                }
            }
        }
        true
    }

    /// Takes over the validators' latest votes, by validator index.
    pub fn set_latest_messages(&mut self, votes: Vec<Option<LatestMessage>>)
        requires
            old(self).wf(),
        ensures
            final(self).wf(),
            final(self)@.nodes == old(self)@.nodes,
            final(self)@.votes == votes@,
    {
        let ghost before = self@;
        self.votes = votes;
        proof {
            assert forall|r: Hash256| #[trigger] self@.known(r) implies self@.block(r).root == r
                && match self@.block(r).parent_root {
                Some(parent) => self@.known(parent) ==> self@.slot(parent).0 < self@.slot(r).0,
                None => true,
            } by {
                assert(before.known(r));
                if before.block(r).parent_root is Some {
                    assert(before.known(before.block(r).parent_root->0) == self@.known(
                        before.block(r).parent_root->0,
                    ));
                }
            }
        }
    }

    /// The block with this root.
    pub fn get_block(&self, block_root: &Hash256) -> (r: Option<ProtoBlock>)
        requires
            self.wf(),
        ensures
            match r {
                Some(block) => self@.known(*block_root) && block == self@.block(*block_root),
                None => !self@.known(*block_root),
            },
    {
        match self.nodes.get(block_root) {
            Some(node) => Some(node.block),
            None => None,
        }
    }

    /// The latest vote of a validator.
    pub fn latest_message(&self, validator_index: usize) -> (r: Option<LatestMessage>)
        ensures
            r == self@.vote(validator_index as int),
    {
        if validator_index < self.votes.len() {
            self.votes[validator_index]
        } else {
            None
        }
    }

    /// The attesting balance behind a block, with or without the proposer boost.
    pub fn get_weight(&self, block_root: &Hash256, include_proposer_boost: bool) -> (r: Option<
        u64,
    >)
        requires
            self.wf(),
        ensures
            r == weight(self@, *block_root, include_proposer_boost),
    {
        match self.nodes.get(block_root) {
            Some(node) => if include_proposer_boost {
                node.weights.boosted
            } else {
                node.weights.support
            },
            None => None,
        }
    }

    /// The score that a timely proposal of a block is worth.
    pub fn get_proposer_score(&self, block_root: &Hash256) -> (r: Option<u64>)
        requires
            self.wf(),
        ensures
            r == proposer_score(self@, *block_root),
    {
        match self.nodes.get(block_root) {
            Some(node) => node.weights.proposer_score,
            None => None,
        }
    }

    /// Whether both blocks are known and `ancestor_root` is `descendant_root` or comes before it.
    pub fn is_descendant(&self, ancestor_root: Hash256, descendant_root: Hash256) -> (r: bool)
        requires
            self.wf(),
        ensures
            r == self@.is_descendant(ancestor_root, descendant_root),
    {
        let ancestor_slot = match self.nodes.get(&ancestor_root) {
            Some(node) => node.block.slot,
            None => {
                return false;
            },
        };
        let ghost line = self@.lineage(descendant_root);
        let ghost mut i: int = 0;
        let mut current_root = descendant_root;
        proof {
            self@.lemma_lineage_step(descendant_root);
        }
        while current_root != ancestor_root
            invariant
                self.wf(),
                line == self@.lineage(descendant_root),
                0 <= i < line.len(),
                line[i] == current_root,
                forall|j: int| 0 <= j < i ==> line[j] != ancestor_root,
                self@.known(ancestor_root),
                self@.slot(ancestor_root) == ancestor_slot,
            decreases line.len() - i,
        {
            proof {
                self@.lemma_lineage_end(descendant_root);
                if line.contains(ancestor_root) {
                    let k = line.index_of(ancestor_root);
                    assert(line[k] == ancestor_root);
                    self@.lemma_lineage_slots(descendant_root, i, k);
                    self@.lemma_lineage_parent(descendant_root, i);
                }
            }
            let parent_root = match self.nodes.get(&current_root) {
                None => {
                    return false;
                },
                Some(node) => {
                    assert(self@.slot(current_root) == node.block.slot);
                    if node.block.slot.0 <= ancestor_slot.0 {
                        return false;
                    }
                    match node.block.parent_root {
                        Some(parent_root) => parent_root,
                        None => {
                            return false;
                        },
                    }
                },
            };
            proof {
                assert(i < line.len() - 1);
                self@.lemma_lineage_parent(descendant_root, i);
                i = i + 1;
            }
            current_root = parent_root;
        }
        true
    }
}

/// The attesting balance behind a block.
pub open spec fn weight(tree: ProtoArrayView, root: Hash256, include_proposer_boost: bool) -> Option<
    u64,
> {
    if !tree.known(root) {
        None
    } else if include_proposer_boost {
        tree.nodes[root].weights.boosted
    } else {
        tree.nodes[root].weights.support
    }
}

/// The score that a timely proposal of a block is worth.
pub open spec fn proposer_score(tree: ProtoArrayView, root: Hash256) -> Option<u64> {
    if tree.known(root) {
        tree.nodes[root].weights.proposer_score
    } else {
        None
    }
}

/// `child` does not name `block` as its parent, or comes in a later slot.
pub open spec fn below_child(tree: ProtoArrayView, block: ProtoBlock, child: Hash256) -> bool {
    tree.block(child).parent_root == Some(block.root) ==> block.slot.0 < tree.slot(child).0
}

/// Whether a block can join the tree: its root is free, and its slot lies after its parent's and
/// before those of the blocks that name it as their parent.
pub open spec fn fits(tree: ProtoArrayView, block: ProtoBlock) -> bool {
    &&& !tree.known(block.root)
    &&& match block.parent_root {
        Some(parent) => parent != block.root && (tree.known(parent) ==> tree.slot(parent).0
            < block.slot.0),
        None => true,
    }
    &&& forall|child: Hash256| #[trigger]
        tree.known(child) ==> below_child(tree, block, child)
}

} // verus!
