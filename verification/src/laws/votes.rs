//! Whose votes count, and which blocks of the tree they are counted for.

use crate::proto_array::{below_child, fits, ProtoArrayView, ProtoNode};
use crate::state_provider::{
    found_state, may_find, CheckpointState, CheckpointValidator, StateProvider,
};
use crate::types::{Checkpoint, Epoch, Hash256};
use crate::votes::{
    canonical_roots, checkpoint_block, checkpoint_support, epoch_support, is_voting_source,
    latest_in_epoch, lemma_canonical_roots,
};
use vstd::prelude::*;

verus! {

/// A known block comes after another exactly if it is that block, or its parent comes after it.
pub proof fn law_descent_goes_through_the_parent(
    tree: ProtoArrayView,
    ancestor: Hash256,
    block: Hash256,
)
    requires
        tree.valid(),
    ensures
        tree.is_descendant(ancestor, block) <==> tree.nodes.contains_key(ancestor) && (ancestor
            == block || (tree.nodes.contains_key(block)
            && tree.nodes[block].block.parent_root is Some && tree.is_descendant(
            ancestor,
            tree.nodes[block].block.parent_root->0,
        ))),
{
    tree.lemma_lineage_step(block);
    let line = tree.lineage(block);
    assert(line[0] == block);
    if tree.known(block) && tree.block(block).parent_root is Some {
        let parent = tree.block(block).parent_root->0;
        let rest = tree.lineage(parent);
        if rest.contains(ancestor) {
            let i = rest.index_of(ancestor);
            assert(line[i + 1] == ancestor);
        }
        if line.contains(ancestor) && ancestor != block {
            let i = line.index_of(ancestor);
            assert(line[i] == ancestor);
            assert(rest[i - 1] == ancestor);
        }
    }
}

/// The walk down from a block meets a known one exactly if the block comes after it. The roots on
/// the way lead from each parent to its child.
pub proof fn law_paths_lead_from_parent_to_child(
    tree: ProtoArrayView,
    ancestor: Hash256,
    block: Hash256,
)
    requires
        tree.valid(),
        tree.nodes.contains_key(ancestor),
    ensures
        canonical_roots(tree, ancestor, block) is Some <==> tree.is_descendant(ancestor, block),
        canonical_roots(tree, ancestor, block) matches Some(path) ==> {
            &&& path.len() > 0
            &&& path[0] == ancestor
            &&& path[path.len() - 1] == block
            &&& forall|k: int|
                1 <= k < path.len() ==> tree.nodes.contains_key(#[trigger] path[k])
                    && tree.nodes[path[k]].block.parent_root == Some(path[k - 1])
        },
{
    if canonical_roots(tree, ancestor, block) is Some {
        lemma_canonical_roots(tree, ancestor, block);
        let path = canonical_roots(tree, ancestor, block)->0;
        assert(path[0] == path.first());
        assert(path[path.len() - 1] == path.last());
        assert forall|k: int| 1 <= k < path.len() implies tree.nodes.contains_key(
            #[trigger] path[k],
        ) && tree.nodes[path[k]].block.parent_root == Some(path[k - 1]) by {
            assert(tree.known(path[k]));
        }
    }
}

/// The checkpoint block of an epoch is the latest block of that epoch among a block and its
/// ancestors; there is none exactly if no such block is of that epoch.
pub proof fn law_checkpoint_block_is_the_latest_of_its_epoch(
    tree: ProtoArrayView,
    slots_per_epoch: u64,
    root: Hash256,
    epoch: Epoch,
    other: Hash256,
)
    requires
        tree.valid(),
        slots_per_epoch > 0,
    ensures
        checkpoint_block(tree, slots_per_epoch, root, epoch) matches Some(found) ==> {
            &&& tree.is_descendant(found, root)
            &&& tree.nodes[found].block.slot.0 / slots_per_epoch == epoch.0
            &&& tree.is_descendant(other, root) && tree.nodes[other].block.slot.0 / slots_per_epoch
                == epoch.0 ==> tree.nodes[other].block.slot.0 <= tree.nodes[found].block.slot.0
        },
        checkpoint_block(tree, slots_per_epoch, root, epoch) is None ==> !(tree.is_descendant(
            other,
            root,
        ) && tree.nodes[other].block.slot.0 / slots_per_epoch == epoch.0),
{
    let line = tree.lineage(root);
    if tree.is_descendant(other, root) && tree.epoch(other, slots_per_epoch) == epoch {
        let k = line.index_of(other);
        assert(line[k] == other);
        if checkpoint_block(tree, slots_per_epoch, root, epoch) is Some {
            let i = choose|i: int| latest_in_epoch(tree, slots_per_epoch, root, epoch, i);
            assert(latest_in_epoch(tree, slots_per_epoch, root, epoch, i));
            if k < i {
                assert(tree.epoch(line[k], slots_per_epoch) != epoch);
            } else if i < k {
                tree.lemma_lineage_slots(root, i, k);
            }
        } else {
            let i = lemma_earliest(tree, slots_per_epoch, root, epoch, k);
            assert(latest_in_epoch(tree, slots_per_epoch, root, epoch, i));
        }
    }
    if checkpoint_block(tree, slots_per_epoch, root, epoch) is Some {
        let i = choose|i: int| latest_in_epoch(tree, slots_per_epoch, root, epoch, i);
        assert(latest_in_epoch(tree, slots_per_epoch, root, epoch, i));
        assert(line.contains(line[i]));
    }
}

/// Where a lineage has a block of an epoch, it has a latest one.
proof fn lemma_earliest(
    tree: ProtoArrayView,
    slots_per_epoch: u64,
    root: Hash256,
    epoch: Epoch,
    k: int,
) -> (i: int)
    requires
        tree.valid(),
        0 <= k < tree.lineage(root).len(),
        tree.known(tree.lineage(root)[k]),
        tree.epoch(tree.lineage(root)[k], slots_per_epoch) == epoch,
    ensures
        latest_in_epoch(tree, slots_per_epoch, root, epoch, i),
    decreases k,
{
    let line = tree.lineage(root);
    if latest_in_epoch(tree, slots_per_epoch, root, epoch, k) {
        k
    } else {
        let j = choose|j: int|
            0 <= j < k && tree.epoch(#[trigger] line[j], slots_per_epoch) == epoch;
        tree.lemma_lineage_slots(root, j, k);
        lemma_earliest(tree, slots_per_epoch, root, epoch, j)
    }
}

/// One more validator adds its balance to the votes for a checkpoint exactly if it is not slashed
/// and its latest vote is of the checkpoint's epoch, for the checkpoint's block or one after it.
pub proof fn law_each_validator_counts_once_for_a_checkpoint(
    tree: ProtoArrayView,
    checkpoint: Checkpoint,
    validators: Seq<CheckpointValidator>,
    i: int,
)
    requires
        0 <= i < validators.len(),
    ensures
        checkpoint_support(tree, checkpoint, validators, 0) == 0,
        checkpoint_support(tree, checkpoint, validators, i + 1) - checkpoint_support(
            tree,
            checkpoint,
            validators,
            i,
        ) == if i < tree.votes.len() && tree.votes[i] is Some && tree.votes[i]->0.epoch
            == checkpoint.epoch && tree.is_descendant(checkpoint.root, tree.votes[i]->0.root)
            && !validators[i].slashed {
            validators[i].effective_balance as int
        } else {
            0
        },
{
}

/// One more validator adds its balance to the votes of an epoch after a block exactly if its
/// latest vote is of that epoch, for the block or one after it.
pub proof fn law_each_validator_counts_once_for_an_epoch(
    tree: ProtoArrayView,
    balances: Seq<u64>,
    head: Hash256,
    epoch: Epoch,
    i: int,
)
    requires
        0 <= i < balances.len(),
    ensures
        epoch_support(tree, balances, head, epoch, 0) == 0,
        epoch_support(tree, balances, head, epoch, i + 1) - epoch_support(
            tree,
            balances,
            head,
            epoch,
            i,
        ) == if i < tree.votes.len() && tree.votes[i] is Some && tree.votes[i]->0.epoch == epoch
            && tree.is_descendant(head, tree.votes[i]->0.root) {
            balances[i] as int
        } else {
            0
        },
{
}

/// Whether validator `i` has a say in the voting source of `head`: it has a balance, and its
/// latest vote falls on `head` or a block after it.
pub open spec fn has_a_say(
    tree: ProtoArrayView,
    balances: Seq<u64>,
    head: Hash256,
    i: int,
) -> bool {
    balances[i] > 0 && i < tree.votes.len() && tree.votes[i] is Some && tree.is_descendant(
        head,
        tree.votes[i]->0.root,
    )
}

/// The balances behind an epoch where all who have a say agree on `agreed`.
proof fn lemma_agreed_support(
    tree: ProtoArrayView,
    balances: Seq<u64>,
    head: Hash256,
    agreed: Epoch,
    epoch: Epoch,
    n: int,
)
    requires
        0 <= n <= balances.len(),
        forall|i: int|
            0 <= i < balances.len() && #[trigger] has_a_say(tree, balances, head, i)
                ==> tree.votes[i]->0.epoch == agreed,
    ensures
        epoch != agreed ==> epoch_support(tree, balances, head, epoch, n) == 0,
        epoch_support(tree, balances, head, epoch, n) >= 0,
        forall|i: int|
            0 <= i < n && #[trigger] has_a_say(tree, balances, head, i) ==> epoch_support(
                tree,
                balances,
                head,
                agreed,
                n,
            ) > 0,
    decreases n,
{
    if n > 0 {
        lemma_agreed_support(tree, balances, head, agreed, epoch, n - 1);
        lemma_agreed_support(tree, balances, head, agreed, agreed, n - 1);
        law_each_validator_counts_once_for_an_epoch(tree, balances, head, epoch, n - 1);
        law_each_validator_counts_once_for_an_epoch(tree, balances, head, agreed, n - 1);
        if has_a_say(tree, balances, head, n - 1) {
            assert(tree.votes[n - 1]->0.epoch == agreed);
        }
    }
}

/// Where all who have a say agree on an epoch, that is the voting source; where nobody has a say,
/// it is the fallback.
pub proof fn law_voting_source_follows_the_votes(
    tree: ProtoArrayView,
    balances: Seq<u64>,
    head: Hash256,
    fallback: Epoch,
    agreed: Epoch,
    source: Epoch,
)
    requires
        is_voting_source(tree, balances, head, fallback, source),
        forall|i: int|
            0 <= i < balances.len() && #[trigger] has_a_say(tree, balances, head, i)
                ==> tree.votes[i]->0.epoch == agreed,
    ensures
        (exists|i: int| 0 <= i < balances.len() && #[trigger] has_a_say(tree, balances, head, i))
            ==> source == agreed,
        !(exists|i: int| 0 <= i < balances.len() && #[trigger] has_a_say(tree, balances, head, i))
            ==> source == fallback,
{
    let n = balances.len() as int;
    lemma_agreed_support(tree, balances, head, agreed, source, n);
    lemma_agreed_support(tree, balances, head, agreed, agreed, n);
    if !(exists|i: int| 0 <= i < balances.len() && #[trigger] has_a_say(tree, balances, head, i)) {
        lemma_agreed_support(tree, balances, head, Epoch(0), source, n);
        lemma_agreed_support(tree, balances, head, Epoch(1), source, n);
    }
}

/// No other epoch has more balance behind it than the voting source.
pub proof fn law_no_epoch_outweighs_the_voting_source(
    tree: ProtoArrayView,
    balances: Seq<u64>,
    head: Hash256,
    fallback: Epoch,
    source: Epoch,
    other: Epoch,
)
    requires
        is_voting_source(tree, balances, head, fallback, source),
    ensures
        epoch_support(tree, balances, head, other, balances.len() as int) <= epoch_support(
            tree,
            balances,
            head,
            source,
            balances.len() as int,
        ),
{
}

/// An epoch that has more balance behind it than any other is the voting source, and no other
/// epoch is.
pub proof fn law_most_votes_make_the_voting_source(
    tree: ProtoArrayView,
    balances: Seq<u64>,
    head: Hash256,
    fallback: Epoch,
    most: Epoch,
    source: Epoch,
)
    requires
        epoch_support(tree, balances, head, most, balances.len() as int) > 0,
        forall|other: Epoch|
            other != most ==> #[trigger] epoch_support(
                tree,
                balances,
                head,
                other,
                balances.len() as int,
            ) < epoch_support(tree, balances, head, most, balances.len() as int),
    ensures
        is_voting_source(tree, balances, head, fallback, source) <==> source == most,
{
}

/// Where the provider can only answer with one state, that state is found; an error and an answer
/// without a state both bring none.
pub proof fn law_the_answer_is_found<S: StateProvider>(
    provider: S,
    checkpoint: Checkpoint,
    answer: Result<Option<CheckpointState>, S::Error>,
    state: Option<CheckpointState>,
)
    requires
        call_ensures(S::get_checkpoint_state, (&provider, &checkpoint), answer),
        forall|other: Result<Option<CheckpointState>, S::Error>| #[trigger]
            call_ensures(S::get_checkpoint_state, (&provider, &checkpoint), other) ==> other
                == answer,
    ensures
        may_find(&provider, checkpoint, state) <==> (answer == Ok::<
            Option<CheckpointState>,
            S::Error,
        >(state) || (answer is Err && state is None)),
{
    assert(found_state(answer) == found_state(answer));
}

/// A block can join a sound tree under a free root exactly if the tree stays sound with it.
pub proof fn law_fitting_blocks_keep_the_tree_sound(tree: ProtoArrayView, node: ProtoNode)
    requires
        tree.valid(),
        !tree.nodes.contains_key(node.block.root),
    ensures
        fits(tree, node.block) <==> (ProtoArrayView {
            nodes: tree.nodes.insert(node.block.root, node),
            ..tree
        }).valid(),
{
    let root = node.block.root;
    let after = ProtoArrayView { nodes: tree.nodes.insert(root, node), ..tree };
    if fits(tree, node.block) {
        assert forall|other: Hash256| #[trigger] after.known(other) implies after.block(other).root
            == other by {
            if other != root {
                assert(tree.known(other));
            }
        }
        assert forall|other: Hash256| #[trigger] after.known(other) implies match after.block(
            other,
        ).parent_root {
            Some(parent) => after.known(parent) ==> after.slot(parent).0 < after.slot(other).0,
            None => true,
        } by {
            if other != root {
                assert(tree.known(other));
            }
        }
    }
    if after.valid() {
        assert(after.known(root));
        assert forall|child: Hash256| #[trigger] tree.known(child) implies below_child(
            tree,
            node.block,
            child,
        ) by {
            assert(after.known(child));
        }
    }
}

} // verus!
