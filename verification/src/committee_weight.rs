//! Estimates of the stake that could have voted in a range of slots, and the inequalities that
//! hold that stake against the votes seen.

use crate::types::{epoch_of, epoch_start, Epoch, Slot};
use vstd::arithmetic::div_mod::{lemma_fundamental_div_mod, lemma_mod_decreases};
use vstd::prelude::*;

verus! {

/// How many thousandths are added to a committee weight estimate to stay on the safe side.
pub const COMMITTEE_WEIGHT_ESTIMATION_ADJUSTMENT_FACTOR: u64 = 5;

/// Whether every slot of `epoch` lies in the range from `start_slot` to `end_slot`, both included.
pub open spec fn epoch_within(
    epoch: int,
    start_slot: Slot,
    end_slot: Slot,
    slots_per_epoch: u64,
) -> bool {
    start_slot.0 <= epoch * slots_per_epoch && epoch * slots_per_epoch + slots_per_epoch
        <= end_slot.0 + 1
}

/// Whether the range from `start_slot` to `end_slot`, both included, holds an entire epoch.
pub open spec fn full_epoch_covered(
    start_slot: Slot,
    end_slot: Slot,
    slots_per_epoch: u64,
) -> bool {
    exists|epoch: int| epoch_within(epoch, start_slot, end_slot, slots_per_epoch)
}

/// The stake that votes in a range of slots that runs over an epoch boundary: the slots of the
/// last epoch count in full, and those of the first one in proportion to the part of the last
/// epoch that the range leaves out.
pub open spec fn cross_epoch_estimate(
    start_slot: Slot,
    end_slot: Slot,
    total_active_balance: u64,
    slots_per_epoch: u64,
) -> int {
    let slots_in_end_epoch = end_slot.0 % slots_per_epoch + 1;
    let slots_in_start_epoch = slots_per_epoch - start_slot.0 % slots_per_epoch;
    let remaining_slots_in_end_epoch = slots_per_epoch - slots_in_end_epoch % slots_per_epoch as int;
    let per_slot = total_active_balance / slots_per_epoch;
    per_slot * slots_in_end_epoch + per_slot / slots_per_epoch * slots_in_start_epoch
        * remaining_slots_in_end_epoch
}

/// The smaller of `x` and the largest 64-bit number.
pub open spec fn cap(x: int) -> int {
    if x > u64::MAX {
        u64::MAX as int
    } else {
        x
    }
}

/// An estimate with its safety margin of half a percent.
pub open spec fn adjusted(estimate: int) -> int {
    estimate * 1005 / 1000
}

/// The stake that could have voted in the slots from `start_slot` to `end_slot`, both included.
pub open spec fn committee_weight(
    start_slot: Slot,
    end_slot: Slot,
    total_active_balance: u64,
    slots_per_epoch: u64,
) -> int {
    if start_slot.0 > end_slot.0 {
        0
    } else if full_epoch_covered(start_slot, end_slot, slots_per_epoch) {
        total_active_balance as int
    } else if epoch_of(start_slot, slots_per_epoch) == epoch_of(end_slot, slots_per_epoch) {
        total_active_balance / slots_per_epoch * (end_slot.0 - start_slot.0 + 1)
    } else {
        adjusted(cap(cross_epoch_estimate(
            start_slot,
            end_slot,
            total_active_balance,
            slots_per_epoch,
        )))
    }
}

/// The stake whose turn to vote for `epoch` has come before `slot`.
pub open spec fn ffg_weight_till_slot(
    slot: Slot,
    epoch: Epoch,
    total_active_balance: u64,
    slots_per_epoch: u64,
) -> int {
    let first = epoch_start(epoch, slots_per_epoch);
    let next = epoch_start(Epoch(crate::types::sat_add(epoch.0, 1)), slots_per_epoch);
    if slot.0 <= first {
        0
    } else if slot.0 >= next {
        total_active_balance as int
    } else {
        total_active_balance / slots_per_epoch * (slot.0 - first)
    }
}

/// The confirmation inequality `2 * S > W * (1 + 2 * beta / 100) + proposer_score`, freed of its
/// fraction.
pub open spec fn outweighs(support: int, committee: int, proposer_score: int, beta: int) -> bool {
    200 * support > committee * (100 + 2 * beta) + 100 * proposer_score
}

/// A part of a quantity, taken slot by slot, stays within the quantity.
pub proof fn lemma_pro_rata(total: int, parts: int, taken: int)
    requires
        total >= 0,
        parts > 0,
        0 <= taken <= parts,
    ensures
        0 <= total / parts * taken <= total,
{
    lemma_fundamental_div_mod(total, parts);
    let share = total / parts;
    assert(share >= 0) by (nonlinear_arith)
        requires
            total >= 0,
            parts > 0,
            share == total / parts,
    ;
    assert(0 <= share * taken <= share * parts) by (nonlinear_arith)
        requires
            share >= 0,
            0 <= taken <= parts,
    ;
    assert(share * parts == parts * share) by (nonlinear_arith);
}

/// Whether the range from `start_slot` to `end_slot`, both included, holds an entire epoch.
pub fn is_full_validator_set_covered(
    start_slot: Slot,
    end_slot: Slot,
    slots_per_epoch: u64,
) -> (r: bool)
    requires
        slots_per_epoch > 0,
    ensures
        r == full_epoch_covered(start_slot, end_slot, slots_per_epoch),
{
    let spe: u128 = slots_per_epoch as u128;
    let offset: u128 = start_slot.0 as u128 % spe;
    proof {
        lemma_mod_decreases(start_slot.0 as nat, slots_per_epoch as nat);
    }
    let first_start: u128 = if offset == 0 {
        start_slot.0 as u128
    } else {
        start_slot.0 as u128 - offset + spe
    };
    let r = first_start + spe <= end_slot.0 as u128 + 1;
    proof {
        let start = start_slot.0 as int;
        let n = slots_per_epoch as int;
        lemma_fundamental_div_mod(start, n);
        let q = start / n;
        let first = if start % n == 0 { q } else { q + 1 };
        assert(first_start == first * n) by {
            assert((q + 1) * n == n * q + n) by (nonlinear_arith);
            assert(q * n == n * q) by (nonlinear_arith);
        }
        if r {
            assert(epoch_within(first, start_slot, end_slot, slots_per_epoch));
        }
        if full_epoch_covered(start_slot, end_slot, slots_per_epoch) {
            let epoch = choose|epoch: int|
                epoch_within(epoch, start_slot, end_slot, slots_per_epoch);
            assert(first <= epoch) by (nonlinear_arith)
                requires
                    start <= epoch * n,
                    n > 0,
                    start == n * q + start % n,
                    0 <= start % n < n,
                    first == (if start % n == 0 { q } else { q + 1 }),
            ;
            assert(first * n <= epoch * n) by (nonlinear_arith)
                requires
                    first <= epoch,
                    n > 0,
            ;
        }
    }
    r
}

/// The stake that votes in a range of slots that runs over an epoch boundary, saturating.
pub fn calculate_cross_epoch_weight_estimate(
    start_slot: Slot,
    end_slot: Slot,
    total_active_balance: u64,
    slots_per_epoch: u64,
) -> (r: u64)
    requires
        slots_per_epoch > 0,
    ensures
        r == cap(
            cross_epoch_estimate(start_slot, end_slot, total_active_balance, slots_per_epoch),
        ),
{
    let num_slots_in_end_epoch: u64 = end_slot.0 % slots_per_epoch + 1;
    let per_slot: u64 = total_active_balance / slots_per_epoch;
    proof {
        lemma_pro_rata(
            total_active_balance as int,
            slots_per_epoch as int,
            num_slots_in_end_epoch as int,
        );
    }
    let end_epoch_weight_estimate: u64 = per_slot * num_slots_in_end_epoch;
    let num_slots_in_start_epoch: u64 = slots_per_epoch - start_slot.0 % slots_per_epoch;
    let remaining_slots_in_end_epoch: u64 = slots_per_epoch - num_slots_in_end_epoch
        % slots_per_epoch;
    let share: u64 = per_slot / slots_per_epoch;
    proof {
        lemma_pro_rata(per_slot as int, slots_per_epoch as int, num_slots_in_start_epoch as int);
        let part = share * num_slots_in_start_epoch;
        let n = slots_per_epoch as int;
        let left = remaining_slots_in_end_epoch as int;
        lemma_fundamental_div_mod(total_active_balance as int, n);
        assert(0 <= part * left <= per_slot * n) by (nonlinear_arith)
            requires
                0 <= part <= per_slot,
                0 <= left <= n,
        ;
        assert(per_slot * n == n * per_slot) by (nonlinear_arith);
    }
    let start_epoch_weight_estimate: u64 = share * num_slots_in_start_epoch
        * remaining_slots_in_end_epoch;
    start_epoch_weight_estimate.saturating_add(end_epoch_weight_estimate)
}

/// An estimate with its safety margin: the estimate times 1005 / 1000, rounded down.
pub fn adjust_committee_weight_estimate_to_ensure_safety(estimate: u64) -> (r: u128)
    ensures
        r == adjusted(estimate as int),
{
    let factor: u128 = 1000 + COMMITTEE_WEIGHT_ESTIMATION_ADJUSTMENT_FACTOR as u128;
    assert(estimate * factor == estimate * 1005) by (nonlinear_arith)
        requires
            factor == 1005,
    ;
    estimate as u128 * factor / 1000
}

/// The stake that could have voted in the slots from `start_slot` to `end_slot`, both included,
/// out of a total of `total_active_balance`.
pub fn get_committee_weight_between_slots(
    start_slot: Slot,
    end_slot: Slot,
    total_active_balance: u64,
    slots_per_epoch: u64,
) -> (r: u128)
    requires
        slots_per_epoch > 0,
    ensures
        r == committee_weight(start_slot, end_slot, total_active_balance, slots_per_epoch),
        r <= 2 * u64::MAX,
{
    if start_slot.0 > end_slot.0 {
        return 0;
    }
    if is_full_validator_set_covered(start_slot, end_slot, slots_per_epoch) {
        return total_active_balance as u128;
    }
    let start_epoch = start_slot.epoch(slots_per_epoch);
    let end_epoch = end_slot.epoch(slots_per_epoch);
    if start_epoch == end_epoch {
        proof {
            let n = slots_per_epoch as int;
            lemma_fundamental_div_mod(start_slot.0 as int, n);
            lemma_fundamental_div_mod(end_slot.0 as int, n);
            lemma_pro_rata(total_active_balance as int, n, end_slot.0 - start_slot.0 + 1);
        }
        let slots_covered: u64 = end_slot.0 - start_slot.0 + 1;
        let weight_per_slot: u64 = total_active_balance / slots_per_epoch;
        (weight_per_slot * slots_covered) as u128
    } else {
        let estimate = calculate_cross_epoch_weight_estimate(
            start_slot,
            end_slot,
            total_active_balance,
            slots_per_epoch,
        );
        adjust_committee_weight_estimate_to_ensure_safety(estimate)
    }
}

/// The stake whose turn to vote for `epoch` has come before `slot`.
pub fn get_ffg_weight_till_slot(
    slot: Slot,
    epoch: Epoch,
    total_active_balance: u64,
    slots_per_epoch: u64,
) -> (r: u64)
    requires
        slots_per_epoch > 0,
    ensures
        r == ffg_weight_till_slot(slot, epoch, total_active_balance, slots_per_epoch),
        r <= total_active_balance,
{
    let epoch_start_slot = epoch.start_slot(slots_per_epoch);
    let next_epoch_start = epoch.saturating_add(1).start_slot(slots_per_epoch);
    if slot.0 <= epoch_start_slot.0 {
        0
    } else if slot.0 >= next_epoch_start.0 {
        total_active_balance
    } else {
        let slots_passed: u64 = slot.0 - epoch_start_slot.0;
        proof {
            assert((epoch.0 + 1) * slots_per_epoch == epoch.0 * slots_per_epoch + slots_per_epoch)
                by (nonlinear_arith);
            lemma_pro_rata(
                total_active_balance as int,
                slots_per_epoch as int,
                slots_passed as int,
            );
        }
        total_active_balance / slots_per_epoch * slots_passed
    }
}

/// Whether the support outweighs the committee by more than the byzantine threshold and the
/// proposer's score can make up: `2 * S > W * (1 + 2 * beta / 100) + proposer_score`.
///
/// The committee is taken apart into fiftieths and a rest, so that nothing is rounded and no
/// product grows too large.
pub fn check_lmd_ghost_confirmation_inequality(
    support_weight: u64,
    committee_weight: u128,
    proposer_score: u64,
    beta_percentage: u64,
) -> (r: bool)
    requires
        committee_weight <= 2 * u64::MAX,
    ensures
        r == outweighs(
            support_weight as int,
            committee_weight as int,
            proposer_score as int,
            beta_percentage as int,
        ),
{
    let fiftieth: u128 = committee_weight / 50;
    let rest: u128 = committee_weight % 50;
    assert(fiftieth * beta_percentage <= 0x0fff_ffff_ffff_ffff * u64::MAX) by (nonlinear_arith)
        requires
            fiftieth <= 0x0fff_ffff_ffff_ffff,
            beta_percentage <= u64::MAX,
    ;
    assert(0 <= rest * beta_percentage <= 49 * u64::MAX) by (nonlinear_arith)
        requires
            0 <= rest <= 49,
            0 <= beta_percentage <= u64::MAX,
    ;
    let left_side: u128 = 2 * support_weight as u128;
    let right_side: u128 = committee_weight + fiftieth * beta_percentage as u128
        + proposer_score as u128;
    assert(committee_weight * (100 + 2 * beta_percentage) == 100 * committee_weight + 100 * (
    fiftieth * beta_percentage) + 2 * (rest * beta_percentage)) by (nonlinear_arith)
        requires
            committee_weight == 50 * fiftieth + rest,
    ;
    left_side > right_side && 50 * (left_side - right_side) > rest * beta_percentage as u128
}

} // verus!
