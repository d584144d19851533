//! What the rule's checks answer: whether a block is confirmed, and whether a checkpoint will be
//! justified.

use crate::committee_weight::{committee_weight, ffg_weight_till_slot, lemma_pro_rata};
use crate::error::Error;
use crate::ffg::honest_weight;
use crate::fork_choice_store::ForkChoiceStore;
use crate::laws::shares::{
    law_committee_counts_slots, law_inequality_asks_for_half_and_the_threshold,
};
use crate::proto_array::ProtoArrayView;
use crate::rule::{vote_window, weighting_balance, Rule};
use crate::state_provider::{may_find, CheckpointState, StateProvider};
use crate::types::{Checkpoint, Epoch, Hash256, Slot};
use crate::votes::{checkpoint_block, checkpoint_support};
use vstd::arithmetic::div_mod::lemma_fundamental_div_mod;
use vstd::prelude::*;

verus! {

/// What a proposal adds to what a block needs: the difference that the boost makes now, if it
/// makes one, and otherwise the score that a timely proposal of the block is worth.
pub open spec fn proposal_weight(boosted: Option<u64>, timely: Option<u64>, support: u64) -> int {
    if boosted is Some && boosted->0 > support {
        boosted->0 - support
    } else if timely is Some {
        timely->0 as int
    } else {
        0
    }
}

/// A block is confirmed exactly if a slot after its parent's is over, and the votes behind the
/// block exceed one half of the committee of those slots by more than the byzantine threshold,
/// with half of the proposer's score on top. The stake is that of the given state, or the
/// justified one where the state does not tell.
pub proof fn law_votes_decide_confirmation<S: StateProvider>(
    rule: Rule<S>,
    tree: ProtoArrayView,
    fc: ForkChoiceStore,
    root: Hash256,
    parent: Hash256,
    state: Option<CheckpointState>,
    support: u64,
    total: u64,
)
    requires
        tree.nodes.contains_key(root),
        tree.nodes[root].block.parent_root == Some(parent),
        tree.nodes.contains_key(parent),
        tree.nodes[root].weights.support == Some(support),
        state is Some && state->0.total_active_balance is Some ==> total
            == state->0.total_active_balance->0,
        !(state is Some && state->0.total_active_balance is Some) ==> total
            == fc.justified_balances.total_effective_balance,
    ensures
        rule.q_indicator(tree, fc, root, state) is Ok,
        rule.q_indicator(tree, fc, root, state) == Ok::<bool, Error>(true) <==> {
            let first = tree.nodes[parent].block.slot.0 + 1;
            let last = fc.current_slot.0 - 1;
            let weights = tree.nodes[root].weights;
            first <= last && 100 * support > committee_weight(
                Slot(first as u64),
                Slot(last as u64),
                total,
                rule.slots_per_epoch,
            ) * (50 + rule.config.beta_percentage) + 50 * proposal_weight(
                weights.boosted,
                weights.proposer_score,
                support,
            )
        },
{
    let first = tree.nodes[parent].block.slot.0 + 1;
    let last = fc.current_slot.0 - 1;
    let weights = tree.nodes[root].weights;
    if first <= last {
        law_inequality_asks_for_half_and_the_threshold(
            support as int,
            committee_weight(Slot(first as u64), Slot(last as u64), total, rule.slots_per_epoch),
            proposal_weight(weights.boosted, weights.proposer_score, support),
            rule.config.beta_percentage as int,
        );
    }
}

/// A block that cannot be checked is answered by what is missing: the block, its parent, or its
/// weight. The first block of the tree is not confirmed by votes.
pub proof fn law_what_is_missing_is_told<S: StateProvider>(
    rule: Rule<S>,
    tree: ProtoArrayView,
    fc: ForkChoiceStore,
    root: Hash256,
    state: Option<CheckpointState>,
)
    ensures
        !tree.nodes.contains_key(root) <==> rule.q_indicator(tree, fc, root, state) == Err::<
            bool,
            Error,
        >(Error::BlockNotFound(root)),
        tree.nodes.contains_key(root) && tree.nodes[root].block.parent_root is None
            ==> rule.q_indicator(tree, fc, root, state) == Ok::<bool, Error>(false),
        tree.nodes.contains_key(root) && tree.nodes[root].block.parent_root is Some
            && !tree.nodes.contains_key(tree.nodes[root].block.parent_root->0)
            ==> rule.q_indicator(tree, fc, root, state) == Err::<bool, Error>(
            Error::ParentNotFound(tree.nodes[root].block.parent_root->0),
        ),
        tree.nodes.contains_key(root) && tree.nodes[root].block.parent_root is Some
            && tree.nodes.contains_key(tree.nodes[root].block.parent_root->0)
            && tree.nodes[root].weights.support is None ==> rule.q_indicator(tree, fc, root, state)
            == Err::<bool, Error>(Error::WeightNotFound(root)),
{
}

/// A committee is never worth less than nothing, nor more than the stake with the margin.
proof fn lemma_committee_bounds(start: Slot, end: Slot, total: u64, slots_per_epoch: u64)
    requires
        slots_per_epoch > 0,
    ensures
        0 <= committee_weight(start, end, total, slots_per_epoch) <= 2 * u64::MAX,
{
    let n = slots_per_epoch as int;
    let share = total as int / n;
    let small = share / n;
    lemma_fundamental_div_mod(start.0 as int, n);
    lemma_fundamental_div_mod(end.0 as int, n);
    let late = end.0 as int % n + 1;
    let early = n - start.0 as int % n;
    let left = n - late % n;
    assert(share >= 0 && small >= 0) by (nonlinear_arith)
        requires
            n > 0,
            total >= 0,
            share == total as int / n,
            small == share / n,
    ;
    assert(0 <= share * late) by (nonlinear_arith)
        requires
            share >= 0,
            late >= 0,
    ;
    let part = small * early;
    assert(0 <= part) by (nonlinear_arith)
        requires
            part == small * early,
            small >= 0,
            early >= 0,
    ;
    lemma_fundamental_div_mod(late, n);
    assert(0 <= part * left) by (nonlinear_arith)
        requires
            part >= 0,
            left >= 0,
    ;
    if start.0 <= end.0 && start.0 / slots_per_epoch == end.0 / slots_per_epoch {
        lemma_pro_rata(total as int, n, end.0 - start.0 + 1);
    }
}

/// The tally of a block's votes decides its confirmation: a block is confirmed exactly if there is
/// a tally, and the support in it exceeds one half of the committee in it by more than the
/// byzantine threshold, with half of the proposer's score on top.
pub proof fn law_tally_decides_confirmation<S: StateProvider>(
    rule: Rule<S>,
    tree: ProtoArrayView,
    fc: ForkChoiceStore,
    root: Hash256,
    state: Option<CheckpointState>,
)
    requires
        rule.slots_per_epoch > 0,
    ensures
        match rule.vote_tally(tree, fc, root, state) {
            Err(error) => rule.q_indicator(tree, fc, root, state) == Err::<bool, Error>(error),
            Ok(None) => rule.q_indicator(tree, fc, root, state) == Ok::<bool, Error>(false),
            Ok(Some(tally)) => rule.q_indicator(tree, fc, root, state) == Ok::<bool, Error>(
                100 * tally.support > tally.committee_weight * (50 + rule.config.beta_percentage)
                    + 50 * tally.proposer_score,
            ) && tree.nodes[root].weights.support == Some(tally.support),
        },
{
    if let Ok(Some(tally)) = rule.vote_tally(tree, fc, root, state) {
        let parent = tree.block(root).parent_root->0;
        let (start, end) = vote_window(tree, fc, parent);
        let total = weighting_balance(fc, state);
        lemma_committee_bounds(start, end, total, rule.slots_per_epoch);
        law_inequality_asks_for_half_and_the_threshold(
            tally.support as int,
            committee_weight(start, end, total, rule.slots_per_epoch),
            tally.proposer_score as int,
            rule.config.beta_percentage as int,
        );
    }
}

/// A block with a parent has a tally exactly if a slot after its parent's is over. The tally holds
/// the votes behind the block, the committee of those slots, and what a proposal adds.
pub proof fn law_tally_tells_what_is_compared<S: StateProvider>(
    rule: Rule<S>,
    tree: ProtoArrayView,
    fc: ForkChoiceStore,
    root: Hash256,
    parent: Hash256,
    state: Option<CheckpointState>,
    support: u64,
    total: u64,
)
    requires
        rule.slots_per_epoch > 0,
        tree.nodes.contains_key(root),
        tree.nodes[root].block.parent_root == Some(parent),
        tree.nodes.contains_key(parent),
        tree.nodes[root].weights.support == Some(support),
        state is Some && state->0.total_active_balance is Some ==> total
            == state->0.total_active_balance->0,
        !(state is Some && state->0.total_active_balance is Some) ==> total
            == fc.justified_balances.total_effective_balance,
    ensures
        ({
            let first = tree.nodes[parent].block.slot.0 + 1;
            let last = fc.current_slot.0 - 1;
            let weights = tree.nodes[root].weights;
            match rule.vote_tally(tree, fc, root, state) {
                Err(_) => false,
                Ok(None) => first > last,
                Ok(Some(tally)) => {
                    &&& first <= last
                    &&& tally.support == support
                    &&& tally.committee_weight == committee_weight(
                        Slot(first as u64),
                        Slot(last as u64),
                        total,
                        rule.slots_per_epoch,
                    )
                    &&& tally.proposer_score == proposal_weight(
                        weights.boosted,
                        weights.proposer_score,
                        support,
                    )
                },
            }
        }),
{
    let (start, end) = vote_window(tree, fc, parent);
    lemma_committee_bounds(start, end, total, rule.slots_per_epoch);
}

/// A confirmed block whose slots for votes lie in one epoch, without filling it, has more than
/// half of the stake of all those slots behind it.
pub proof fn law_confirmed_block_has_half_of_every_slot<S: StateProvider>(
    rule: Rule<S>,
    tree: ProtoArrayView,
    fc: ForkChoiceStore,
    root: Hash256,
    parent: Hash256,
    state: Option<CheckpointState>,
    total: u64,
    first: Slot,
    last: Slot,
)
    requires
        rule.slots_per_epoch > 0,
        tree.nodes.contains_key(root),
        tree.nodes[root].block.parent_root == Some(parent),
        state is Some && state->0.total_active_balance is Some ==> total
            == state->0.total_active_balance->0,
        !(state is Some && state->0.total_active_balance is Some) ==> total
            == fc.justified_balances.total_effective_balance,
        first.0 == tree.nodes[parent].block.slot.0 + 1,
        last.0 == fc.current_slot.0 - 1,
        first.0 / rule.slots_per_epoch == last.0 / rule.slots_per_epoch,
        !(first.0 % rule.slots_per_epoch == 0 && last.0 % rule.slots_per_epoch
            == rule.slots_per_epoch - 1),
        rule.q_indicator(tree, fc, root, state) == Ok::<bool, Error>(true),
    ensures
        tree.nodes[root].weights.support is Some,
        first.0 <= last.0,
        2 * tree.nodes[root].weights.support->0 > (total / rule.slots_per_epoch) * (last.0
            - first.0 + 1),
{
    let support = tree.nodes[root].weights.support->0;
    law_votes_decide_confirmation(rule, tree, fc, root, parent, state, support, total);
    law_committee_counts_slots(first, last, total, rule.slots_per_epoch);
    let beta = rule.config.beta_percentage as int;
    let share = total as int / rule.slots_per_epoch as int;
    let slots = last.0 - first.0 + 1;
    assert(share * slots >= 0) by (nonlinear_arith)
        requires
            share >= 0,
            slots >= 0,
    ;
    let committee = share * slots;
    assert(committee * (50 + beta) >= 50 * committee) by (nonlinear_arith)
        requires
            committee >= 0,
            beta >= 0,
    ;
}

/// The weights of a known block with a known parent are taken from the state of the checkpoint
/// that was unrealized justified when the epoch began, and nothing else of the provider matters.
pub proof fn law_weights_come_from_the_weighting_checkpoint<S: StateProvider>(
    rule: Rule<S>,
    tree: ProtoArrayView,
    fc: ForkChoiceStore,
    root: Hash256,
    state: Option<CheckpointState>,
    outcome: Result<bool, Error>,
)
    requires
        may_find(
            &rule.provider,
            rule.store.prev_epoch_unrealized_justified_checkpoint,
            state,
        ),
        forall|other: Option<CheckpointState>| #[trigger]
            may_find(
                &rule.provider,
                rule.store.prev_epoch_unrealized_justified_checkpoint,
                other,
            ) ==> other == state,
    ensures
        rule.one_confirmed(tree, fc, root, outcome) <==> outcome == rule.q_indicator(
            tree,
            fc,
            root,
            state,
        ),
{
}

/// The part of `total` that honest validators can be counted on to give `checkpoint`: of the stake
/// whose turn has come in the current epoch, the votes that the validators of `state` cast for it;
/// and of the rest, the honest part.
pub open spec fn counted_on<S: StateProvider>(
    rule: Rule<S>,
    tree: ProtoArrayView,
    fc: ForkChoiceStore,
    checkpoint: Checkpoint,
    state: CheckpointState,
    total: u64,
) -> int {
    let epoch = Epoch(fc.current_slot.0 / rule.slots_per_epoch);
    let votes = checkpoint_support(
        tree,
        checkpoint,
        state.validators@,
        state.validators@.len() as int,
    );
    honest_weight(
        total as int,
        ffg_weight_till_slot(fc.current_slot, epoch, total, rule.slots_per_epoch),
        if votes <= u64::MAX { votes } else { u64::MAX as int },
        rule.config.beta_percentage as int,
        rule.config.slashing_percentage as int,
    )
}

/// A checkpoint has its share of the stake exactly if three times the stake that it can count on
/// is at least that many times the total. Without a state it has no share, and without a total
/// there is no answer.
pub proof fn law_shares_are_thirds_of_the_total<S: StateProvider>(
    rule: Rule<S>,
    tree: ProtoArrayView,
    fc: ForkChoiceStore,
    checkpoint: Checkpoint,
    state: CheckpointState,
    share: int,
)
    ensures
        rule.reaches(tree, fc, checkpoint, None, share) == Ok::<bool, Error>(false),
        state.total_active_balance is None ==> rule.reaches(
            tree,
            fc,
            checkpoint,
            Some(state),
            share,
        ) == Err::<bool, Error>(Error::TotalActiveBalanceUnavailable),
        state.total_active_balance matches Some(total) ==> rule.reaches(
            tree,
            fc,
            checkpoint,
            Some(state),
            share,
        ) == Ok::<bool, Error>(
            3 * counted_on(rule, tree, fc, checkpoint, state, total) >= share * total,
        ),
{
}

/// Whether a checkpoint of the current epoch will be justified is decided by the state that the
/// provider has for it. With a state of total `T`, it will be exactly if three times the stake
/// that it can count on is at least twice `T`; without a state, it will not be; without a total,
/// there is no answer. A checkpoint of another epoch is refused.
pub proof fn law_justification_takes_two_thirds<S: StateProvider>(
    rule: Rule<S>,
    tree: ProtoArrayView,
    fc: ForkChoiceStore,
    checkpoint: Checkpoint,
    state: Option<CheckpointState>,
    outcome: Result<bool, Error>,
)
    requires
        rule.slots_per_epoch > 0,
        forall|other: Option<CheckpointState>| #[trigger]
            may_find(&rule.provider, checkpoint, other) ==> other == state,
        rule.current_epoch_justified(tree, fc, checkpoint, outcome),
    ensures
        if checkpoint.epoch.0 != fc.current_slot.0 / rule.slots_per_epoch {
            outcome == Err::<bool, Error>(Error::CheckpointNotInCurrentEpoch)
        } else if state is None {
            outcome == Ok::<bool, Error>(false)
        } else if state->0.total_active_balance is None {
            outcome == Err::<bool, Error>(Error::TotalActiveBalanceUnavailable)
        } else {
            let total = state->0.total_active_balance->0;
            outcome == Ok::<bool, Error>(
                3 * counted_on(rule, tree, fc, checkpoint, state->0, total) >= 2 * total,
            )
        },
{
}

/// Whether a checkpoint will be justified: one that is justified already will be, by the votes
/// that realized it or those that would; one of the current epoch takes two thirds of the stake;
/// and no other one will be.
pub proof fn law_old_checkpoints_are_not_justified_anew<S: StateProvider>(
    rule: Rule<S>,
    tree: ProtoArrayView,
    fc: ForkChoiceStore,
    checkpoint: Checkpoint,
    outcome: Result<bool, Error>,
)
    requires
        rule.will_be_justified(tree, fc, checkpoint, outcome),
    ensures
        checkpoint == fc.justified_checkpoint || checkpoint == fc.unrealized_justified_checkpoint
            ==> outcome == Ok::<bool, Error>(true),
        checkpoint != fc.justified_checkpoint && checkpoint != fc.unrealized_justified_checkpoint
            && checkpoint.epoch.0 != fc.current_slot.0 / rule.slots_per_epoch ==> outcome == Ok::<
            bool,
            Error,
        >(false),
        checkpoint != fc.justified_checkpoint && checkpoint != fc.unrealized_justified_checkpoint
            && checkpoint.epoch.0 == fc.current_slot.0 / rule.slots_per_epoch
            ==> rule.current_epoch_justified(tree, fc, checkpoint, outcome),
{
}

/// The checkpoint of the current epoch on the chain of `head`: the latest block of that epoch, or
/// the head itself where there is none.
pub open spec fn checkpoint_now<S: StateProvider>(
    rule: Rule<S>,
    tree: ProtoArrayView,
    fc: ForkChoiceStore,
    head: Hash256,
) -> Checkpoint {
    let epoch = Epoch(fc.current_slot.0 / rule.slots_per_epoch);
    let block = checkpoint_block(tree, rule.slots_per_epoch, head, epoch);
    Checkpoint { epoch, root: if block is Some { block->0 } else { head } }
}

/// Whether no checkpoint against the head's chain will be justified is decided by the state that
/// the provider has for the head's checkpoint of the current epoch. With a state of total `T`,
/// none will be exactly if three times the stake that the head's checkpoint can count on is at
/// least `T`; without a state, nothing is ruled out; without a total, there is no answer.
pub proof fn law_ruling_out_conflicts_takes_a_third<S: StateProvider>(
    rule: Rule<S>,
    tree: ProtoArrayView,
    fc: ForkChoiceStore,
    head: Hash256,
    state: Option<CheckpointState>,
    outcome: Result<bool, Error>,
)
    requires
        rule.slots_per_epoch > 0,
        forall|other: Option<CheckpointState>| #[trigger]
            may_find(&rule.provider, checkpoint_now(rule, tree, fc, head), other) ==> other
                == state,
        rule.no_conflict(tree, fc, head, outcome),
    ensures
        if state is None {
            outcome == Ok::<bool, Error>(false)
        } else if state->0.total_active_balance is None {
            outcome == Err::<bool, Error>(Error::TotalActiveBalanceUnavailable)
        } else {
            let total = state->0.total_active_balance->0;
            let checkpoint = checkpoint_now(rule, tree, fc, head);
            outcome == Ok::<bool, Error>(
                3 * counted_on(rule, tree, fc, checkpoint, state->0, total) >= total,
            )
        },
{
    assert(rule.head_checkpoint(tree, fc, head) == checkpoint_now(rule, tree, fc, head));
}

} // verus!
