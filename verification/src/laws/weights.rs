//! The arithmetic of the weights.

use crate::committee_weight::{
    adjusted, committee_weight, ffg_weight_till_slot, full_epoch_covered, lemma_pro_rata,
    outweighs,
};
use crate::ffg::{dishonest_support, honest_weight};
use crate::laws::ancestry::law_ancestors_of_ancestors;
use crate::proto_array::ProtoArrayView;
use crate::state_provider::CheckpointValidator;
use crate::types::{epoch_start, sat_add, Checkpoint, Epoch, Slot};
use crate::votes::{checkpoint_support, counted_balance, votes_for_checkpoint};
use vstd::prelude::*;

verus! {

/// The safety margin is half a percent of the estimate, rounded down.
pub proof fn law_margin_is_half_a_percent(estimate: int)
    requires
        estimate >= 0,
    ensures
        adjusted(estimate) - estimate == estimate * 5 / 1000,
        adjusted(estimate) >= estimate,
{
}

/// The safety margin keeps the order of estimates.
pub proof fn law_margin_keeps_order(smaller: int, larger: int)
    requires
        0 <= smaller <= larger,
    ensures
        adjusted(smaller) <= adjusted(larger),
{
}

/// Whatever passes the confirmation inequality also passes it with more support, a smaller
/// committee, a lower proposer's score or a lower byzantine threshold.
pub proof fn law_inequality_is_monotone(
    support: int,
    committee: int,
    proposer_score: int,
    beta: int,
    more_support: int,
    smaller_committee: int,
    lower_score: int,
    lower_beta: int,
)
    requires
        outweighs(support, committee, proposer_score, beta),
        support <= more_support,
        0 <= smaller_committee <= committee,
        lower_score <= proposer_score,
        0 <= lower_beta <= beta,
    ensures
        outweighs(more_support, smaller_committee, lower_score, lower_beta),
{
    assert(smaller_committee * (100 + 2 * lower_beta) <= committee * (100 + 2 * beta))
        by (nonlinear_arith)
        requires
            0 <= smaller_committee <= committee,
            0 <= lower_beta <= beta,
    ;
}

/// The confirmation inequality takes more than half of the committee, and never holds without any
/// support.
pub proof fn law_inequality_takes_a_majority(
    support: int,
    committee: int,
    proposer_score: int,
    beta: int,
)
    requires
        outweighs(support, committee, proposer_score, beta),
        committee >= 0,
        proposer_score >= 0,
        beta >= 0,
    ensures
        2 * support > committee,
        support > 0,
{
    assert(committee * (100 + 2 * beta) >= 100 * committee) by (nonlinear_arith)
        requires
            committee >= 0,
            beta >= 0,
    ;
}

/// No committee votes in an empty range of slots; one slot's committee is its part of the epoch;
/// and a range that holds an entire epoch is worth the whole stake.
pub proof fn law_committee_of_simple_ranges(
    start_slot: Slot,
    end_slot: Slot,
    total_active_balance: u64,
    slots_per_epoch: u64,
)
    requires
        slots_per_epoch > 0,
    ensures
        start_slot.0 > end_slot.0 ==> committee_weight(
            start_slot,
            end_slot,
            total_active_balance,
            slots_per_epoch,
        ) == 0,
        start_slot == end_slot ==> committee_weight(
            start_slot,
            end_slot,
            total_active_balance,
            slots_per_epoch,
        ) == total_active_balance / slots_per_epoch,
        start_slot.0 <= end_slot.0 && full_epoch_covered(start_slot, end_slot, slots_per_epoch)
            ==> committee_weight(start_slot, end_slot, total_active_balance, slots_per_epoch)
            == total_active_balance,
{
    let share = total_active_balance / slots_per_epoch;
    assert(share * 1 == share) by (nonlinear_arith);
}

/// The stake whose turn to vote has come lies between nothing and everything.
pub proof fn law_ffg_weight_is_a_part(
    slot: Slot,
    epoch: Epoch,
    total_active_balance: u64,
    slots_per_epoch: u64,
)
    requires
        slots_per_epoch > 0,
    ensures
        0 <= ffg_weight_till_slot(slot, epoch, total_active_balance, slots_per_epoch)
            <= total_active_balance,
{
    let first = epoch_start(epoch, slots_per_epoch);
    let next = epoch_start(Epoch(sat_add(epoch.0, 1)), slots_per_epoch);
    if first < slot.0 && slot.0 < next {
        assert((epoch.0 + 1) * slots_per_epoch == epoch.0 * slots_per_epoch + slots_per_epoch)
            by (nonlinear_arith);
        lemma_pro_rata(total_active_balance as int, slots_per_epoch as int, slot.0 - first);
    }
}

/// The stake whose turn to vote has come never falls as slots go by: it is nothing up to the
/// epoch's first slot, and everything from the next epoch's first slot on.
pub proof fn law_ffg_weight_grows(
    earlier: Slot,
    later: Slot,
    epoch: Epoch,
    total_active_balance: u64,
    slots_per_epoch: u64,
)
    requires
        slots_per_epoch > 0,
        earlier.0 <= later.0,
    ensures
        ffg_weight_till_slot(earlier, epoch, total_active_balance, slots_per_epoch)
            <= ffg_weight_till_slot(later, epoch, total_active_balance, slots_per_epoch),
        later.0 <= epoch_start(epoch, slots_per_epoch) ==> ffg_weight_till_slot(
            later,
            epoch,
            total_active_balance,
            slots_per_epoch,
        ) == 0,
        earlier.0 > epoch_start(epoch, slots_per_epoch) && earlier.0 >= epoch_start(
            Epoch(sat_add(epoch.0, 1)),
            slots_per_epoch,
        ) ==> ffg_weight_till_slot(earlier, epoch, total_active_balance, slots_per_epoch)
            == total_active_balance,
{
    law_ffg_weight_is_a_part(earlier, epoch, total_active_balance, slots_per_epoch);
    law_ffg_weight_is_a_part(later, epoch, total_active_balance, slots_per_epoch);
    let first = epoch_start(epoch, slots_per_epoch);
    let share = total_active_balance / slots_per_epoch;
    if first < earlier.0 {
        let a = earlier.0 - first;
        let b = later.0 - first;
        assert(share * a <= share * b) by (nonlinear_arith)
            requires
                a <= b,
                share >= 0,
        ;
    }
}

/// What honest validators can be counted on for falls as the byzantine or the slashing threshold
/// rises, and grows with the votes seen.
pub proof fn law_honest_weight_is_monotone(
    total: int,
    weight_till_now: int,
    support: int,
    beta: int,
    slashing: int,
    more_support: int,
    lower_beta: int,
    lower_slashing: int,
)
    requires
        0 <= weight_till_now <= total,
        0 <= support <= more_support,
        0 <= lower_beta <= beta <= 100,
        0 <= lower_slashing <= slashing,
    ensures
        honest_weight(total, weight_till_now, support, beta, slashing) <= honest_weight(
            total,
            weight_till_now,
            more_support,
            lower_beta,
            lower_slashing,
        ),
{
    let now = weight_till_now / 100;
    let left = (total - weight_till_now) / 100;
    assert(now * lower_beta <= now * beta) by (nonlinear_arith)
        requires
            now >= 0,
            lower_beta <= beta,
    ;
    assert(now * lower_slashing <= now * slashing) by (nonlinear_arith)
        requires
            now >= 0,
            lower_slashing <= slashing,
    ;
    assert(left * (100 - beta) <= left * (100 - lower_beta)) by (nonlinear_arith)
        requires
            left >= 0,
            lower_beta <= beta,
    ;
}

/// Honest votes are never fewer than none, and no more than the votes seen with the stake that is
/// still to vote.
pub proof fn law_honest_weight_is_bounded(
    total: int,
    weight_till_now: int,
    support: int,
    beta: int,
    slashing: int,
)
    requires
        0 <= weight_till_now <= total,
        0 <= support,
        0 <= beta <= 100,
        0 <= slashing,
    ensures
        0 <= dishonest_support(support, weight_till_now, beta, slashing) <= support,
        0 <= honest_weight(total, weight_till_now, support, beta, slashing) <= support + total
            - weight_till_now,
{
    let now = weight_till_now / 100;
    let left = (total - weight_till_now) / 100;
    assert(0 <= now * beta) by (nonlinear_arith)
        requires
            now >= 0,
            beta >= 0,
    ;
    assert(0 <= now * slashing) by (nonlinear_arith)
        requires
            now >= 0,
            slashing >= 0,
    ;
    assert(0 <= left * (100 - beta) <= left * 100) by (nonlinear_arith)
        requires
            left >= 0,
            0 <= beta <= 100,
    ;
}

/// What the votes of the first `n` validators count for together.
pub open spec fn total_of(validators: Seq<CheckpointValidator>, n: int) -> int
    decreases n,
{
    if n <= 0 {
        0
    } else {
        total_of(validators, n - 1) + counted_balance(validators[n - 1])
    }
}

/// The votes for a checkpoint never weigh more than all validators together, and nothing without
/// validators.
pub proof fn law_checkpoint_support_is_bounded(
    tree: ProtoArrayView,
    checkpoint: Checkpoint,
    validators: Seq<CheckpointValidator>,
    n: int,
)
    requires
        0 <= n <= validators.len(),
    ensures
        0 <= checkpoint_support(tree, checkpoint, validators, n) <= total_of(validators, n),
    decreases n,
{
    if n > 0 {
        law_checkpoint_support_is_bounded(tree, checkpoint, validators, n - 1);
    }
}

/// A checkpoint without the vote of any validator that still counts weighs nothing: votes of other
/// epochs, for blocks that do not come after the checkpoint's, and of slashed validators do not
/// count.
pub proof fn law_checkpoint_without_votes_weighs_nothing(
    tree: ProtoArrayView,
    checkpoint: Checkpoint,
    validators: Seq<CheckpointValidator>,
    n: int,
)
    requires
        forall|i: int|
            0 <= i < n ==> !votes_for_checkpoint(tree, checkpoint, i)
                || #[trigger] validators[i].slashed,
    ensures
        checkpoint_support(tree, checkpoint, validators, n) == 0,
    decreases n,
{
    if n > 0 {
        law_checkpoint_without_votes_weighs_nothing(tree, checkpoint, validators, n - 1);
        assert(validators[n - 1].slashed || !validators[n - 1].slashed);
    }
}

/// A checkpoint that every validator's latest vote supports has all behind it that their votes
/// count for.
pub proof fn law_unanimous_checkpoint_has_all_balances(
    tree: ProtoArrayView,
    checkpoint: Checkpoint,
    validators: Seq<CheckpointValidator>,
    n: int,
)
    requires
        forall|i: int| 0 <= i < n ==> votes_for_checkpoint(tree, checkpoint, i),
    ensures
        checkpoint_support(tree, checkpoint, validators, n) == total_of(validators, n),
    decreases n,
{
    if n > 0 {
        law_unanimous_checkpoint_has_all_balances(tree, checkpoint, validators, n - 1);
    }
}

/// A vote that supports a checkpoint also supports the checkpoints of that epoch on the blocks
/// before it.
pub proof fn law_votes_support_the_checkpoints_before_them(
    tree: ProtoArrayView,
    checkpoint: Checkpoint,
    earlier: Checkpoint,
    i: int,
)
    requires
        tree.valid(),
        votes_for_checkpoint(tree, checkpoint, i),
        earlier.epoch == checkpoint.epoch,
        tree.is_descendant(earlier.root, checkpoint.root),
    ensures
        votes_for_checkpoint(tree, earlier, i),
{
    let vote = tree.vote(i)->0.root;
    law_ancestors_of_ancestors(tree, vote, checkpoint.root, earlier.root);
    tree.lemma_lineage_step(vote);
}

} // verus!
