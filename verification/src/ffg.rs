//! The stake that honest validators can be counted on to give a checkpoint.

use vstd::prelude::*;

verus! {

/// The smaller of two numbers.
pub open spec fn min_int(a: int, b: int) -> int {
    if a <= b {
        a
    } else {
        b
    }
}

/// The stake that counts as dishonest among the votes for a checkpoint: no more than the
/// byzantine share and the slashable share of the stake whose turn has come, and no more than the
/// votes themselves.
pub open spec fn dishonest_support(
    support: int,
    weight_till_now: int,
    beta: int,
    slashing: int,
) -> int {
    min_int(
        min_int(weight_till_now / 100 * beta, weight_till_now / 100 * slashing),
        support,
    )
}

/// The honest votes seen for a checkpoint, with the honest votes that are still to come.
pub open spec fn honest_weight(
    total: int,
    weight_till_now: int,
    support: int,
    beta: int,
    slashing: int,
) -> int {
    support - dishonest_support(support, weight_till_now, beta, slashing) + (total
        - weight_till_now) / 100 * (100 - beta)
}

/// The honest votes seen for a checkpoint, with the honest votes that are still to come, when
/// `total_active_balance` votes in the epoch and the turn of `ffg_weight_till_now` has come.
pub fn get_honest_ffg_weight(
    total_active_balance: u64,
    ffg_weight_till_now: u64,
    ffg_support_for_checkpoint: u64,
    beta_percentage: u64,
    slashing_percentage: u64,
) -> (r: u128)
    requires
        ffg_weight_till_now <= total_active_balance,
        beta_percentage <= 100,
    ensures
        r == honest_weight(
            total_active_balance as int,
            ffg_weight_till_now as int,
            ffg_support_for_checkpoint as int,
            beta_percentage as int,
            slashing_percentage as int,
        ),
        r <= 2 * u64::MAX,
{
    let remaining_ffg_weight: u64 = total_active_balance - ffg_weight_till_now;
    let hundredth_left: u64 = remaining_ffg_weight / 100;
    let honest_share: u64 = 100 - beta_percentage;
    assert(hundredth_left * honest_share <= hundredth_left * 100) by (nonlinear_arith)
        requires
            honest_share <= 100,
    ;
    let remaining_honest_ffg_weight: u128 = (hundredth_left * honest_share) as u128;
    let hundredth: u128 = (ffg_weight_till_now / 100) as u128;
    assert(hundredth * beta_percentage <= u64::MAX * u64::MAX) by (nonlinear_arith)
        requires
            hundredth <= u64::MAX,
            beta_percentage <= u64::MAX,
    ;
    assert(hundredth * slashing_percentage <= u64::MAX * u64::MAX) by (nonlinear_arith)
        requires
            hundredth <= u64::MAX,
            slashing_percentage <= u64::MAX,
    ;
    assert(0 <= hundredth * beta_percentage) by (nonlinear_arith)
        requires
            0 <= hundredth,
            0 <= beta_percentage,
    ;
    assert(0 <= hundredth * slashing_percentage) by (nonlinear_arith)
        requires
            0 <= hundredth,
            0 <= slashing_percentage,
    ;
    let byzantine_weight: u128 = hundredth * beta_percentage as u128;
    let slashing_weight: u128 = hundredth * slashing_percentage as u128;
    let support: u128 = ffg_support_for_checkpoint as u128;
    let smaller: u128 = if byzantine_weight <= slashing_weight {
        byzantine_weight
    } else {
        slashing_weight
    };
    let min_byzantine_weight: u128 = if smaller <= support {
        smaller
    } else {
        support
    };
    support - min_byzantine_weight + remaining_honest_ffg_weight
}

} // verus!
