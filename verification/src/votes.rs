//! Walks through the block tree, and sums over the votes that point into it.

use crate::committee_weight::cap;
use crate::proto_array::{ProtoArrayForkChoice, ProtoArrayView};
use crate::state_provider::CheckpointValidator;
use crate::types::{Checkpoint, Epoch, Hash256};
use vstd::prelude::*;

verus! {

/// The roots from `ancestor` to `descendant`, both included, each the parent of the next.
pub open spec fn canonical_roots(
    tree: ProtoArrayView,
    ancestor: Hash256,
    descendant: Hash256,
) -> Option<Seq<Hash256>> {
    let line = tree.lineage(descendant);
    if line.contains(ancestor) {
        Some(line.take(line.index_of(ancestor) + 1).reverse())
    } else {
        None
    }
}

/// What a path of canonical roots is made of.
pub proof fn lemma_canonical_roots(tree: ProtoArrayView, ancestor: Hash256, descendant: Hash256)
    requires
        tree.valid(),
        canonical_roots(tree, ancestor, descendant) is Some,
    ensures
        ({
            let path = canonical_roots(tree, ancestor, descendant)->0;
            &&& path.len() > 0
            &&& path.first() == ancestor
            &&& path.last() == descendant
            &&& forall|k: int|
                1 <= k < path.len() ==> tree.known(#[trigger] path[k]) && tree.block(
                    path[k],
                ).parent_root == Some(path[k - 1])
            &&& forall|k: int|
                0 <= k < path.len() ==> tree.lineage(descendant).contains(#[trigger] path[k])
        }),
{
    let line = tree.lineage(descendant);
    let i = line.index_of(ancestor);
    assert(line[i] == ancestor);
    let path = canonical_roots(tree, ancestor, descendant)->0;
    tree.lemma_lineage_step(descendant);
    assert forall|k: int| 0 <= k < path.len() implies path[k] == line[i - k] && line.contains(
        #[trigger] path[k],
    ) by {}
    assert forall|k: int| 1 <= k < path.len() implies tree.known(#[trigger] path[k]) && tree.block(
        path[k],
    ).parent_root == Some(path[k - 1]) by {
        tree.lemma_lineage_parent(descendant, i - k);
    }
}

/// The roots from `ancestor_root` to `descendant_root`, both included, or nothing if the walk from
/// the descendant never meets the ancestor.
pub fn get_canonical_roots(
    proto_array: &ProtoArrayForkChoice,
    ancestor_root: Hash256,
    descendant_root: Hash256,
) -> (r: Option<Vec<Hash256>>)
    requires
        proto_array.wf(),
    ensures
        match r {
            Some(roots) => canonical_roots(proto_array@, ancestor_root, descendant_root) == Some(
                roots@,
            ),
            None => canonical_roots(proto_array@, ancestor_root, descendant_root) is None,
        },
{
    let ghost tree = proto_array@;
    let ghost line = tree.lineage(descendant_root);
    proof {
        proto_array.lemma_valid();
        tree.lemma_lineage_step(descendant_root);
        tree.lemma_lineage_end(descendant_root);
    }
    let mut visited: Vec<Hash256> = Vec::new();
    let mut current_root = descendant_root;
    while current_root != ancestor_root
        invariant
            proto_array.wf(),
            tree == proto_array@,
            tree.valid(),
            line == tree.lineage(descendant_root),
            visited@.len() < line.len(),
            visited@ == line.take(visited@.len() as int),
            line[visited@.len() as int] == current_root,
            !visited@.contains(ancestor_root),
            tree.known(line.last()) ==> tree.block(line.last()).parent_root is None,
        decreases line.len() - visited@.len(),
    {
        let ghost before = visited@;
        visited.push(current_root);
        assert(visited@ =~= line.take(visited@.len() as int));
        assert(!visited@.contains(ancestor_root)) by {
            if visited@.contains(ancestor_root) {
                let j = visited@.index_of(ancestor_root);
                assert(visited@[j] == ancestor_root);
                assert(before[j] == ancestor_root);
            }
        }
        let parent = match proto_array.get_block(&current_root) {
            Some(block) => block.parent_root,
            None => None,
        };
        match parent {
            Some(parent_root) => {
                assert(before.len() < line.len() - 1);
                proof {
                    tree.lemma_lineage_parent(descendant_root, before.len() as int);
                }
                current_root = parent_root;
            },
            None => {
                proof {
                    if before.len() < line.len() - 1 {
                        tree.lemma_lineage_parent(descendant_root, before.len() as int);
                    }
                    assert(line.take(line.len() as int) =~= line);
                }
                return None;
            },
        }
    }
    let ghost n = visited@.len() as int;
    visited.push(ancestor_root);
    assert(visited@ =~= line.take(n + 1));
    proof {
        assert(line[n] == ancestor_root);
        let i = line.index_of(ancestor_root);
        assert(line[i] == ancestor_root);
        if i < n {
            tree.lemma_lineage_slots(descendant_root, i, n);
        } else if n < i {
            tree.lemma_lineage_slots(descendant_root, n, i);
        }
    }
    let roots = reversed(&visited);
    Some(roots)
}

/// The roots in the opposite order.
fn reversed(roots: &Vec<Hash256>) -> (r: Vec<Hash256>)
    ensures
        r@ == roots@.reverse(),
{
    let mut r: Vec<Hash256> = Vec::new();
    let mut left: usize = roots.len();
    while left > 0
        invariant
            left <= roots@.len(),
            r@.len() == roots@.len() - left,
            forall|i: int| 0 <= i < r@.len() ==> r@[i] == roots@[roots@.len() - 1 - i],
        decreases left,
    {
        left = left - 1;
        r.push(roots[left]);
    }
    assert(r@ =~= roots@.reverse());
    r
}

/// Member `i` of a lineage is its latest block in `epoch`.
pub open spec fn latest_in_epoch(
    tree: ProtoArrayView,
    slots_per_epoch: u64,
    root: Hash256,
    epoch: Epoch,
    i: int,
) -> bool {
    let line = tree.lineage(root);
    &&& 0 <= i < line.len()
    &&& tree.known(line[i])
    &&& tree.epoch(line[i], slots_per_epoch) == epoch
    &&& forall|j: int| 0 <= j < i ==> tree.epoch(#[trigger] line[j], slots_per_epoch) != epoch
}

/// The latest block in `epoch` among `root` and the blocks before it.
pub open spec fn checkpoint_block(
    tree: ProtoArrayView,
    slots_per_epoch: u64,
    root: Hash256,
    epoch: Epoch,
) -> Option<Hash256> {
    if exists|i: int| latest_in_epoch(tree, slots_per_epoch, root, epoch, i) {
        Some(
            tree.lineage(root)[choose|i: int|
                latest_in_epoch(tree, slots_per_epoch, root, epoch, i)],
        )
    } else {
        None
    }
}

/// The latest block in `epoch` among `block_root` and the blocks before it.
pub fn get_checkpoint_block(
    proto_array: &ProtoArrayForkChoice,
    slots_per_epoch: u64,
    block_root: Hash256,
    epoch: Epoch,
) -> (r: Option<Hash256>)
    requires
        proto_array.wf(),
        slots_per_epoch > 0,
    ensures
        r == checkpoint_block(proto_array@, slots_per_epoch, block_root, epoch),
{
    let ghost tree = proto_array@;
    let ghost line = tree.lineage(block_root);
    proof {
        proto_array.lemma_valid();
        tree.lemma_lineage_step(block_root);
        tree.lemma_lineage_end(block_root);
    }
    let mut current_root = block_root;
    let ghost mut n: int = 0;
    loop
        invariant
            proto_array.wf(),
            slots_per_epoch > 0,
            tree == proto_array@,
            tree.valid(),
            line == tree.lineage(block_root),
            0 <= n < line.len(),
            line[n] == current_root,
            forall|j: int| 0 <= j < n ==> tree.epoch(#[trigger] line[j], slots_per_epoch) != epoch,
            forall|j: int| 0 <= j < n ==> tree.known(#[trigger] line[j]),
            tree.known(line.last()) ==> tree.block(line.last()).parent_root is None,
        decreases line.len() - n,
    {
        let parent = match proto_array.get_block(&current_root) {
            None => {
                proof {
                    if n < line.len() - 1 {
                        tree.lemma_lineage_parent(block_root, n);
                    }
                    assert forall|i: int|
                        !latest_in_epoch(tree, slots_per_epoch, block_root, epoch, i) by {
                        if 0 <= i < n {
                            assert(tree.epoch(line[i], slots_per_epoch) != epoch);
                        }
                    }
                }
                return None;
            },
            Some(block) => {
                if block.slot.epoch(slots_per_epoch) == epoch {
                    proof {
                        assert(latest_in_epoch(tree, slots_per_epoch, block_root, epoch, n));
                        let i = choose|i: int|
                            latest_in_epoch(tree, slots_per_epoch, block_root, epoch, i);
                        if i < n {
                            assert(tree.epoch(line[i], slots_per_epoch) != epoch);
                        } else if n < i {
                            assert(tree.epoch(line[n], slots_per_epoch) != epoch);
                        }
                    }
                    return Some(current_root);
                }
                block.parent_root
            },
        };
        match parent {
            Some(parent_root) => {
                proof {
                    tree.lemma_lineage_parent(block_root, n);
                    n = n + 1;
                }
                current_root = parent_root;
            },
            None => {
                proof {
                    if n < line.len() - 1 {
                        tree.lemma_lineage_parent(block_root, n);
                    }
                    assert forall|i: int|
                        !latest_in_epoch(tree, slots_per_epoch, block_root, epoch, i) by {
                        if 0 <= i <= n {
                            assert(tree.epoch(line[i], slots_per_epoch) != epoch);
                        }
                    }
                }
                return None;
            },
        }
    }
}

/// The latest vote of validator `i` is of the checkpoint's epoch and falls on its block or one
/// after it.
pub open spec fn votes_for_checkpoint(
    tree: ProtoArrayView,
    checkpoint: Checkpoint,
    i: int,
) -> bool {
    match tree.vote(i) {
        Some(message) => message.epoch == checkpoint.epoch && tree.is_descendant(
            checkpoint.root,
            message.root,
        ),
        None => false,
    }
}

/// The balance that a validator's vote counts for: none once the validator is slashed.
pub open spec fn counted_balance(validator: CheckpointValidator) -> int {
    if validator.slashed {
        0
    } else {
        validator.effective_balance as int
    }
}

/// The balance of those of the first `n` validators that vote for the checkpoint.
pub open spec fn checkpoint_support(
    tree: ProtoArrayView,
    checkpoint: Checkpoint,
    validators: Seq<CheckpointValidator>,
    n: int,
) -> int
    decreases n,
{
    if n <= 0 {
        0
    } else {
        checkpoint_support(tree, checkpoint, validators, n - 1) + if votes_for_checkpoint(
            tree,
            checkpoint,
            n - 1,
        ) {
            counted_balance(validators[n - 1])
        } else {
            0
        }
    }
}

/// The balance of the validators that vote for the checkpoint, saturating.
pub fn get_checkpoint_weight(
    proto_array: &ProtoArrayForkChoice,
    checkpoint: &Checkpoint,
    validators: &Vec<CheckpointValidator>,
) -> (r: u64)
    requires
        proto_array.wf(),
    ensures
        r == cap(
            checkpoint_support(
                proto_array@,
                *checkpoint,
                validators@,
                validators@.len() as int,
            ),
        ),
{
    let mut checkpoint_weight: u64 = 0;
    let mut validator_index: usize = 0;
    while validator_index < validators.len()
        invariant
            proto_array.wf(),
            validator_index <= validators@.len(),
            checkpoint_weight == cap(
                checkpoint_support(
                    proto_array@,
                    *checkpoint,
                    validators@,
                    validator_index as int,
                ),
            ),
        decreases validators@.len() - validator_index,
    {
        if let Some(message) = proto_array.latest_message(validator_index) {
            if message.epoch == checkpoint.epoch && proto_array.is_descendant(
                checkpoint.root,
                message.root,
            ) {
                let validator = validators[validator_index];
                if !validator.slashed {
                    checkpoint_weight =
                    checkpoint_weight.saturating_add(validator.effective_balance);
                }
            }
        }
        validator_index = validator_index + 1;
    }
    checkpoint_weight
}

/// Validator `i` has a balance, and its latest vote is of `epoch` and falls on `head` or a block
/// after it.
pub open spec fn votes_after(
    tree: ProtoArrayView,
    balances: Seq<u64>,
    head: Hash256,
    epoch: Epoch,
    i: int,
) -> bool {
    balances[i] != 0 && match tree.vote(i) {
        Some(message) => message.epoch == epoch && tree.is_descendant(head, message.root),
        None => false,
    }
}

/// The balance behind `epoch` among the first `n` validators' votes for `head` or blocks after it.
pub open spec fn epoch_support(
    tree: ProtoArrayView,
    balances: Seq<u64>,
    head: Hash256,
    epoch: Epoch,
    n: int,
) -> int
    decreases n,
{
    if n <= 0 {
        0
    } else {
        epoch_support(tree, balances, head, epoch, n - 1) + if votes_after(
            tree,
            balances,
            head,
            epoch,
            n - 1,
        ) {
            balances[n - 1] as int
        } else {
            0
        }
    }
}

/// No epoch has more balance behind it than `epoch` in the votes for `head` and the blocks after
/// it; without any such vote, `epoch` is the given fallback.
pub open spec fn is_voting_source(
    tree: ProtoArrayView,
    balances: Seq<u64>,
    head: Hash256,
    fallback: Epoch,
    epoch: Epoch,
) -> bool {
    let n = balances.len() as int;
    &&& forall|other: Epoch|
        #![trigger epoch_support(tree, balances, head, other, n)]
        epoch_support(tree, balances, head, other, n) <= epoch_support(
            tree,
            balances,
            head,
            epoch,
            n,
        )
    &&& epoch_support(tree, balances, head, epoch, n) == 0 ==> epoch == fallback
}

proof fn lemma_epoch_support_bound(
    tree: ProtoArrayView,
    balances: Seq<u64>,
    head: Hash256,
    epoch: Epoch,
    n: int,
)
    requires
        0 <= n <= balances.len(),
    ensures
        0 <= epoch_support(tree, balances, head, epoch, n) <= n * u64::MAX,
    decreases n,
{
    if n > 0 {
        lemma_epoch_support_bound(tree, balances, head, epoch, n - 1);
        assert(n * u64::MAX == (n - 1) * u64::MAX + u64::MAX) by (nonlinear_arith);
    } else {
        assert(n * u64::MAX == 0) by (nonlinear_arith)
            requires
                n == 0,
        ;
    }
}

/// The balance behind one epoch.
struct EpochTally {
    epoch: Epoch,
    weight: u128,
}

/// The tallies give each epoch that has any support its support among the first `n` votes.
spec fn tallied(
    tallies: Seq<EpochTally>,
    tree: ProtoArrayView,
    balances: Seq<u64>,
    head: Hash256,
    n: int,
) -> bool {
    &&& forall|i: int|
        0 <= i < tallies.len() ==> (#[trigger] tallies[i]).weight == epoch_support(
            tree,
            balances,
            head,
            tallies[i].epoch,
            n,
        )
    &&& forall|i: int, j: int|
        0 <= i < j < tallies.len() ==> (#[trigger] tallies[i]).epoch != (
        #[trigger] tallies[j]).epoch
    &&& forall|epoch: Epoch|
        #![trigger epoch_support(tree, balances, head, epoch, n)]
        epoch_support(tree, balances, head, epoch, n) != 0 ==> exists|i: int|
            0 <= i < tallies.len() && (#[trigger] tallies[i]).epoch == epoch
}

/// Adds `balance` to the tally of `epoch`.
fn add_to_tally(tallies: &mut Vec<EpochTally>, epoch: Epoch, balance: u64)
    requires
        forall|i: int, j: int|
            0 <= i < j < old(tallies)@.len() ==> (#[trigger] old(tallies)@[i]).epoch != (
            #[trigger] old(tallies)@[j]).epoch,
        forall|i: int|
            0 <= i < old(tallies)@.len() ==> (#[trigger] old(tallies)@[i]).weight + balance
                <= u128::MAX,
    ensures
        final(tallies)@.len() >= old(tallies)@.len(),
        forall|i: int|
            0 <= i < old(tallies)@.len() ==> (#[trigger] final(tallies)@[i]).epoch == old(tallies)@[i].epoch && final(tallies)@[i].weight == old(tallies)@[i].weight + if old(tallies)@[i].epoch == epoch {
                balance as int
            } else {
                0
            },
        forall|i: int|
            old(tallies)@.len() <= i < final(tallies)@.len() ==> (#[trigger] final(tallies)@[i]).epoch == epoch && final(tallies)@[i].weight == balance,
        forall|i: int, j: int|
            0 <= i < j < final(tallies)@.len() ==> (#[trigger] final(tallies)@[i]).epoch != (
            #[trigger] final(tallies)@[j]).epoch,
        exists|i: int| 0 <= i < final(tallies)@.len() && (#[trigger] final(tallies)@[i]).epoch == epoch,
{
    let mut i: usize = 0;
    while i < tallies.len()
        invariant
            i <= tallies@.len(),
            tallies@ == old(tallies)@,
            forall|j: int| 0 <= j < i ==> (#[trigger] tallies@[j]).epoch != epoch,
            forall|i: int, j: int|
                0 <= i < j < tallies@.len() ==> (#[trigger] tallies@[i]).epoch != (
                #[trigger] tallies@[j]).epoch,
            forall|i: int|
                0 <= i < tallies@.len() ==> (#[trigger] tallies@[i]).weight + balance
                    <= u128::MAX,
        decreases tallies@.len() - i,
    {
        if tallies[i].epoch == epoch {
            let weight: u128 = tallies[i].weight + balance as u128;
            tallies.set(i, EpochTally { epoch, weight });
            assert(tallies@[i as int].epoch == epoch);
            return;
        }
        i = i + 1;
    }
    tallies.push(EpochTally { epoch, weight: balance as u128 });
    assert(tallies@[tallies@.len() - 1].epoch == epoch);
}

/// The epoch with the most balance behind it in the votes for `head_root` and the blocks after it,
/// or `fallback` if there is no such vote.
pub fn get_voting_source_epoch(
    proto_array: &ProtoArrayForkChoice,
    effective_balances: &Vec<u64>,
    head_root: Hash256,
    fallback: Epoch,
) -> (r: Epoch)
    requires
        proto_array.wf(),
    ensures
        is_voting_source(proto_array@, effective_balances@, head_root, fallback, r),
{
    let ghost tree = proto_array@;
    let ghost balances = effective_balances@;
    let mut tallies: Vec<EpochTally> = Vec::new();
    let mut validator_index: usize = 0;
    while validator_index < effective_balances.len()
        invariant
            proto_array.wf(),
            tree == proto_array@,
            balances == effective_balances@,
            validator_index <= balances.len(),
            tallied(tallies@, tree, balances, head_root, validator_index as int),
        decreases balances.len() - validator_index,
    {
        let ghost before = tallies@;
        let ghost n = validator_index as int;
        let balance = effective_balances[validator_index];
        let mut counted: Option<Epoch> = None;
        if balance != 0 {
            if let Some(message) = proto_array.latest_message(validator_index) {
                if proto_array.is_descendant(head_root, message.root) {
                    counted = Some(message.epoch);
                }
            }
        }
        assert(forall|epoch: Epoch|
            #![trigger epoch_support(tree, balances, head_root, epoch, n + 1)]
            epoch_support(tree, balances, head_root, epoch, n + 1) == epoch_support(
                tree,
                balances,
                head_root,
                epoch,
                n,
            ) + if counted == Some(epoch) {
                balance as int
            } else {
                0
            });
        if let Some(epoch) = counted {
            proof {
                assert forall|i: int| 0 <= i < tallies@.len() implies (
                #[trigger] tallies@[i]).weight + balance <= u128::MAX by {
                    lemma_epoch_support_bound(tree, balances, head_root, tallies@[i].epoch, n);
                    assert((n + 1) * u64::MAX <= usize::MAX * u64::MAX) by (nonlinear_arith)
                        requires
                            n + 1 <= usize::MAX,
                    ;
                    assert((n + 1) * u64::MAX == n * u64::MAX + u64::MAX) by (nonlinear_arith);
                }
            }
            add_to_tally(&mut tallies, epoch, balance);
        }
        proof {
            assert forall|i: int| 0 <= i < tallies@.len() implies (#[trigger] tallies@[i]).weight
                == epoch_support(tree, balances, head_root, tallies@[i].epoch, n + 1) by {
                if i < before.len() {
                    assert(before[i].epoch == tallies@[i].epoch);
                } else {
                    let epoch = tallies@[i].epoch;
                    if epoch_support(tree, balances, head_root, epoch, n) != 0 {
                        let k = choose|k: int|
                            0 <= k < before.len() && (#[trigger] before[k]).epoch == epoch;
                        assert(tallies@[k].epoch == tallies@[i].epoch);
                    }
                }
            }
            assert forall|epoch: Epoch|
                #![trigger epoch_support(tree, balances, head_root, epoch, n + 1)]
                epoch_support(tree, balances, head_root, epoch, n + 1) != 0 implies exists|i: int|
                0 <= i < tallies@.len() && (#[trigger] tallies@[i]).epoch == epoch by {
                if counted != Some(epoch) {
                    assert(epoch_support(tree, balances, head_root, epoch, n) != 0);
                    let k = choose|k: int|
                        0 <= k < before.len() && (#[trigger] before[k]).epoch == epoch;
                    assert(tallies@[k].epoch == epoch);
                }
            }
        }
        validator_index = validator_index + 1;
    }
    let ghost n = balances.len() as int;
    let mut best_epoch = fallback;
    let mut best_weight: u128 = 0;
    let mut i: usize = 0;
    proof {
        lemma_epoch_support_bound(tree, balances, head_root, fallback, n);
    }
    while i < tallies.len()
        invariant
            i <= tallies@.len(),
            forall|j: int| 0 <= j < i ==> (#[trigger] tallies@[j]).weight <= best_weight,
            best_weight == 0 ==> best_epoch == fallback,
            best_weight != 0 ==> exists|j: int|
                0 <= j < i && (#[trigger] tallies@[j]).epoch == best_epoch && tallies@[j].weight
                    == best_weight,
        decreases tallies@.len() - i,
    {
        if tallies[i].weight > best_weight {
            best_weight = tallies[i].weight;
            best_epoch = tallies[i].epoch;
            assert(tallies@[i as int].epoch == best_epoch);
        }
        i = i + 1;
    }
    proof {
        assert forall|epoch: Epoch|
            #![trigger epoch_support(tree, balances, head_root, epoch, n)]
            epoch_support(tree, balances, head_root, epoch, n) <= best_weight by {
            if epoch_support(tree, balances, head_root, epoch, n) != 0 {
                let k = choose|k: int|
                    0 <= k < tallies@.len() && (#[trigger] tallies@[k]).epoch == epoch;
                assert(tallies@[k].weight <= best_weight);
            }
        }
    }
    best_epoch
}

} // verus!
