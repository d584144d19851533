//! How the shares of the stake are measured: slot by slot, vote by vote, percent by percent.

use crate::bench_api::{bench_weight, outweighs_saturating, SLOTS_PER_EPOCH};
use crate::committee_weight::{
    cap, committee_weight, cross_epoch_estimate, epoch_within, ffg_weight_till_slot,
    full_epoch_covered, outweighs,
};
use crate::ffg::{dishonest_support, honest_weight};
use crate::types::{Epoch, Slot};
use vstd::arithmetic::div_mod::{
    lemma_div_is_ordered, lemma_fundamental_div_mod, lemma_fundamental_div_mod_converse,
};
use vstd::prelude::*;

verus! {

/// A range of slots within one epoch that does not fill it holds no entire epoch.
proof fn lemma_part_of_an_epoch(start: Slot, end: Slot, slots_per_epoch: u64)
    requires
        slots_per_epoch > 0,
        start.0 <= end.0,
        start.0 / slots_per_epoch == end.0 / slots_per_epoch,
        !(start.0 % slots_per_epoch == 0 && end.0 % slots_per_epoch == slots_per_epoch - 1),
    ensures
        !full_epoch_covered(start, end, slots_per_epoch),
{
    if full_epoch_covered(start, end, slots_per_epoch) {
        let epoch = choose|epoch: int| epoch_within(epoch, start, end, slots_per_epoch);
        let n = slots_per_epoch as int;
        let a = start.0 as int;
        let c = end.0 as int;
        let q = a / n;
        lemma_fundamental_div_mod(a, n);
        lemma_fundamental_div_mod(c, n);
        assert(epoch == q) by (nonlinear_arith)
            requires
                n > 0,
                a <= epoch * n,
                epoch * n + n <= c + 1,
                a == n * q + a % n,
                c == n * q + c % n,
                0 <= a % n < n,
                0 <= c % n < n,
        ;
        assert(epoch * n == n * q) by (nonlinear_arith)
            requires
                epoch == q,
        ;
    }
}

/// Slots between two of one epoch lie in that epoch.
proof fn lemma_between(a: u64, b: u64, c: u64, slots_per_epoch: u64)
    requires
        slots_per_epoch > 0,
        a <= b <= c,
        a / slots_per_epoch == c / slots_per_epoch,
    ensures
        b / slots_per_epoch == a / slots_per_epoch,
        b % slots_per_epoch - a % slots_per_epoch == b - a,
        c % slots_per_epoch - b % slots_per_epoch == c - b,
{
    let n = slots_per_epoch as int;
    lemma_div_is_ordered(a as int, b as int, n);
    lemma_div_is_ordered(b as int, c as int, n);
    lemma_fundamental_div_mod(a as int, n);
    lemma_fundamental_div_mod(b as int, n);
    lemma_fundamental_div_mod(c as int, n);
}

/// Within an epoch that the range does not fill, committees add up: those of two ranges that meet
/// weigh together what the committee of the whole range weighs, and that of one slot weighs one
/// part of the stake out of as many as the epoch has slots.
pub proof fn law_committees_add_up(a: Slot, b: Slot, c: Slot, total: u64, slots_per_epoch: u64)
    requires
        slots_per_epoch > 0,
        a.0 <= b.0 < c.0,
        a.0 / slots_per_epoch == c.0 / slots_per_epoch,
        !(a.0 % slots_per_epoch == 0 && c.0 % slots_per_epoch == slots_per_epoch - 1),
    ensures
        committee_weight(a, c, total, slots_per_epoch) == committee_weight(
            a,
            b,
            total,
            slots_per_epoch,
        ) + committee_weight(Slot((b.0 + 1) as u64), c, total, slots_per_epoch),
        committee_weight(a, a, total, slots_per_epoch) == total / slots_per_epoch,
{
    let next = Slot((b.0 + 1) as u64);
    lemma_between(a.0, b.0, c.0, slots_per_epoch);
    lemma_between(a.0, next.0, c.0, slots_per_epoch);
    lemma_part_of_an_epoch(a, c, slots_per_epoch);
    lemma_part_of_an_epoch(a, b, slots_per_epoch);
    lemma_part_of_an_epoch(next, c, slots_per_epoch);
    lemma_part_of_an_epoch(a, a, slots_per_epoch);
    let share = total / slots_per_epoch;
    let left = b.0 - a.0 + 1;
    let right = c.0 - next.0 + 1;
    assert(share * (left + right) == share * left + share * right) by (nonlinear_arith);
    assert(share * 1 == share);
}

/// Within an epoch that the range does not fill, the committee's weight is that of one slot for
/// each slot of the range.
pub proof fn law_committee_counts_slots(a: Slot, c: Slot, total: u64, slots_per_epoch: u64)
    requires
        slots_per_epoch > 0,
        a.0 <= c.0,
        a.0 / slots_per_epoch == c.0 / slots_per_epoch,
        !(a.0 % slots_per_epoch == 0 && c.0 % slots_per_epoch == slots_per_epoch - 1),
    ensures
        committee_weight(a, c, total, slots_per_epoch) == (total / slots_per_epoch) * (c.0 - a.0
            + 1),
    decreases c.0 - a.0,
{
    if a.0 < c.0 {
        let b = Slot((c.0 - 1) as u64);
        law_committees_add_up(a, b, c, total, slots_per_epoch);
        lemma_between(a.0, b.0, c.0, slots_per_epoch);
        law_committee_counts_slots(a, b, total, slots_per_epoch);
        lemma_part_of_an_epoch(c, c, slots_per_epoch);
        let share = total / slots_per_epoch;
        let n = b.0 - a.0 + 1;
        assert(share * (n + 1) == share * n + share) by (nonlinear_arith);
    } else {
        lemma_part_of_an_epoch(a, a, slots_per_epoch);
    }
}

/// A range that holds all slots of some epoch is worth the whole stake.
pub proof fn law_entire_epoch_is_worth_the_stake(
    start: Slot,
    end: Slot,
    epoch: int,
    total: u64,
    slots_per_epoch: u64,
)
    requires
        slots_per_epoch > 0,
        start.0 <= epoch * slots_per_epoch,
        epoch * slots_per_epoch + slots_per_epoch <= end.0 + 1,
    ensures
        full_epoch_covered(start, end, slots_per_epoch),
        committee_weight(start, end, total, slots_per_epoch) == total,
{
    assert(epoch_within(epoch, start, end, slots_per_epoch));
}

/// Whether a range holds an entire epoch is decided by the first slot of an epoch that the range
/// has: the range must be as long from there as an epoch.
pub proof fn law_entire_epoch_starts_in_the_range(
    start: Slot,
    end: Slot,
    first: int,
    slots_per_epoch: u64,
)
    requires
        slots_per_epoch > 0,
        start.0 <= first < start.0 + slots_per_epoch,
        first % slots_per_epoch as int == 0,
    ensures
        full_epoch_covered(start, end, slots_per_epoch) <==> first + slots_per_epoch <= end.0 + 1,
{
    let n = slots_per_epoch as int;
    let q = first / n;
    lemma_fundamental_div_mod(first, n);
    assert(q * n == n * q) by (nonlinear_arith);
    if first + n <= end.0 + 1 {
        assert(epoch_within(q, start, end, slots_per_epoch));
    }
    if full_epoch_covered(start, end, slots_per_epoch) {
        let epoch = choose|epoch: int| epoch_within(epoch, start, end, slots_per_epoch);
        let a = start.0 as int;
        assert(q <= epoch) by (nonlinear_arith)
            requires
                n > 0,
                a <= epoch * n,
                q * n < a + n,
        ;
        assert(q * n <= epoch * n) by (nonlinear_arith)
            requires
                q <= epoch,
                n > 0,
        ;
    }
}

/// The part that the slots of the first epoch have in the estimate of a range over an epoch
/// boundary, and that all of it stays within the stake.
proof fn lemma_cross_epoch_estimate(start: Slot, end: Slot, total: u64, slots_per_epoch: u64)
    requires
        slots_per_epoch > 0,
        end.0 % slots_per_epoch < slots_per_epoch - 1,
    ensures
        ({
            let per_slot = total / slots_per_epoch;
            let late = end.0 % slots_per_epoch + 1;
            let early = slots_per_epoch - start.0 % slots_per_epoch;
            let estimate = cross_epoch_estimate(start, end, total, slots_per_epoch);
            &&& estimate == per_slot * late + per_slot / slots_per_epoch * early * (slots_per_epoch
                - late)
            &&& 0 <= estimate <= total
        }),
{
    let n = slots_per_epoch as int;
    let per_slot = total as int / n;
    let small = per_slot / n;
    let late = end.0 as int % n + 1;
    let early = n - start.0 as int % n;
    lemma_fundamental_div_mod(start.0 as int, n);
    lemma_fundamental_div_mod(end.0 as int, n);
    lemma_fundamental_div_mod(total as int, n);
    lemma_fundamental_div_mod(per_slot, n);
    assert(late % n == late) by {
        lemma_fundamental_div_mod_converse(late, n, 0, late);
    }
    assert(per_slot >= 0 && small >= 0) by (nonlinear_arith)
        requires
            n > 0,
            total >= 0,
            per_slot == total as int / n,
            small == per_slot / n,
    ;
    let part = small * early;
    assert(0 <= part <= per_slot) by (nonlinear_arith)
        requires
            part == small * early,
            0 <= early <= n,
            0 <= small,
            per_slot == n * small + per_slot % n,
            per_slot % n >= 0,
    ;
    let left = n - late;
    assert(0 <= part * left <= per_slot * left) by (nonlinear_arith)
        requires
            0 <= part <= per_slot,
            0 <= left,
    ;
    assert(0 <= per_slot * late) by (nonlinear_arith)
        requires
            0 <= per_slot,
            0 <= late,
    ;
    assert(per_slot * late + per_slot * left == n * per_slot) by (nonlinear_arith)
        requires
            left == n - late,
    ;
    assert(cross_epoch_estimate(start, end, total, slots_per_epoch) == per_slot * late + part
        * left);
}

/// Over an epoch boundary, where no entire epoch is held, the slots of the last epoch count as
/// they do alone. Each slot of the first epoch adds a slot's part of a slot's committee for every
/// slot that the range leaves out of the last epoch. Half a percent comes on top, rounded down.
pub proof fn law_committee_over_a_boundary(start: Slot, end: Slot, total: u64, slots_per_epoch: u64)
    requires
        slots_per_epoch > 0,
        start.0 / slots_per_epoch < end.0 / slots_per_epoch,
        forall|epoch: int|
            !(start.0 <= #[trigger] (epoch * slots_per_epoch) && epoch * slots_per_epoch
                + slots_per_epoch <= end.0 + 1),
    ensures
        ({
            let boundary = Slot((end.0 - end.0 % slots_per_epoch) as u64);
            let early = slots_per_epoch - start.0 % slots_per_epoch;
            let left_out = slots_per_epoch - 1 - end.0 % slots_per_epoch;
            let weight = committee_weight(start, end, total, slots_per_epoch);
            let plain = committee_weight(boundary, end, total, slots_per_epoch) + total
                / slots_per_epoch / slots_per_epoch * early * left_out;
            1000 * weight <= 1005 * plain < 1000 * weight + 1000
        }),
{
    let n = slots_per_epoch as int;
    let q = end.0 as int / n;
    let boundary = Slot((end.0 - end.0 % slots_per_epoch) as u64);
    lemma_fundamental_div_mod(end.0 as int, n);
    lemma_fundamental_div_mod(start.0 as int, n);
    let p = start.0 as int / n;
    assert(start.0 <= q * n) by (nonlinear_arith)
        requires
            p < q,
            n > 0,
            start.0 as int == n * p + start.0 as int % n,
            (start.0 as int % n) < n,
    ;
    assert(q * n == n * q) by (nonlinear_arith);
    assert(end.0 as int % n < n - 1) by {
        assert(!(start.0 <= q * slots_per_epoch && q * slots_per_epoch + slots_per_epoch <= end.0
            + 1));
    }
    lemma_fundamental_div_mod_converse(boundary.0 as int, n, q, 0);
    lemma_part_of_an_epoch(boundary, end, slots_per_epoch);
    law_committee_counts_slots(boundary, end, total, slots_per_epoch);
    lemma_cross_epoch_estimate(start, end, total, slots_per_epoch);
    assert(!full_epoch_covered(start, end, slots_per_epoch)) by {
        assert forall|epoch: int| !epoch_within(epoch, start, end, slots_per_epoch) by {
            assert(!(start.0 <= epoch * slots_per_epoch && epoch * slots_per_epoch
                + slots_per_epoch <= end.0 + 1));
        }
    }
}

/// From an epoch's first slot on, each slot brings the turn of one slot's part of the stake; the
/// turn of all has come with the next epoch's first slot.
pub proof fn law_each_slot_brings_its_share(
    slot: Slot,
    epoch: Epoch,
    total: u64,
    slots_per_epoch: u64,
)
    requires
        slots_per_epoch > 0,
        epoch.0 * slots_per_epoch + slots_per_epoch <= u64::MAX,
    ensures
        slot.0 <= epoch.0 * slots_per_epoch ==> ffg_weight_till_slot(
            slot,
            epoch,
            total,
            slots_per_epoch,
        ) == 0,
        epoch.0 * slots_per_epoch + slots_per_epoch <= slot.0 ==> ffg_weight_till_slot(
            slot,
            epoch,
            total,
            slots_per_epoch,
        ) == total,
        epoch.0 * slots_per_epoch <= slot.0 && slot.0 + 1 < epoch.0 * slots_per_epoch
            + slots_per_epoch ==> ffg_weight_till_slot(
            Slot((slot.0 + 1) as u64),
            epoch,
            total,
            slots_per_epoch,
        ) == ffg_weight_till_slot(slot, epoch, total, slots_per_epoch) + total / slots_per_epoch,
{
    let n = slots_per_epoch as int;
    let e = epoch.0 as int;
    assert(e < u64::MAX) by (nonlinear_arith)
        requires
            e * n + n <= u64::MAX,
            n >= 1,
            e >= 0,
    ;
    assert((e + 1) * n == e * n + n) by (nonlinear_arith);
    let share = total / slots_per_epoch;
    let passed = slot.0 - e * n;
    assert(share * (passed + 1) == share * passed + share) by (nonlinear_arith);
    assert(share * 0 == 0);
}

/// A block passes the confirmation inequality exactly if its share of the committee exceeds one
/// half by more than the byzantine threshold, with half of the proposer's score on top.
pub proof fn law_inequality_asks_for_half_and_the_threshold(
    support: int,
    committee: int,
    proposer_score: int,
    beta: int,
)
    ensures
        outweighs(support, committee, proposer_score, beta) <==> 100 * support > committee * (50
            + beta) + 50 * proposer_score,
{
    assert(committee * (100 + 2 * beta) == 2 * (committee * (50 + beta))) by (nonlinear_arith);
}

/// What the confirmation inequality asks for grows by one for two points of the proposer's score,
/// and by the committee's weight for a hundred percent of the byzantine threshold.
pub proof fn law_inequality_shifts(support: int, committee: int, proposer_score: int, beta: int)
    ensures
        outweighs(support + 1, committee, proposer_score + 2, beta) <==> outweighs(
            support,
            committee,
            proposer_score,
            beta,
        ),
        outweighs(support + committee, committee, proposer_score, beta + 100) <==> outweighs(
            support,
            committee,
            proposer_score,
            beta,
        ),
{
    assert(committee * (100 + 2 * (beta + 100)) == committee * (100 + 2 * beta) + 200 * committee)
        by (nonlinear_arith);
}

/// The votes that are taken off as dishonest are no more than the byzantine share of the stake
/// whose turn has come, no more than its slashable share, and no more than the votes seen; and
/// they are one of the three. The rest of the votes count, and with them the honest part of the
/// stake that is still to vote.
pub proof fn law_dishonest_votes_are_the_least_of_three(
    total: int,
    weight_till_now: int,
    support: int,
    beta: int,
    slashing: int,
)
    ensures
        ({
            let to_come = (total - weight_till_now) / 100 * (100 - beta);
            let taken_off = support + to_come - honest_weight(
                total,
                weight_till_now,
                support,
                beta,
                slashing,
            );
            &&& taken_off <= weight_till_now / 100 * beta
            &&& taken_off <= weight_till_now / 100 * slashing
            &&& taken_off <= support
            &&& taken_off == weight_till_now / 100 * beta || taken_off == weight_till_now / 100
                * slashing || taken_off == support
            &&& taken_off == dishonest_support(support, weight_till_now, beta, slashing)
        }),
{
}

/// The honest part of the stake that is still to vote falls by a hundredth of that stake with each
/// percent of the byzantine threshold, down to nothing. The votes seen add to it.
pub proof fn law_votes_to_come_fall_with_the_threshold(
    total: int,
    weight_till_now: int,
    support: int,
    beta: int,
    slashing: int,
)
    requires
        0 <= weight_till_now <= total,
        0 <= support,
        0 <= beta,
        0 <= slashing,
    ensures
        honest_weight(total, weight_till_now, 0, 100, slashing) == 0,
        honest_weight(total, weight_till_now, 0, beta, slashing) == honest_weight(
            total,
            weight_till_now,
            0,
            beta + 1,
            slashing,
        ) + (total - weight_till_now) / 100,
        honest_weight(total, weight_till_now, support, beta, slashing) == honest_weight(
            total,
            weight_till_now,
            0,
            beta,
            slashing,
        ) + support - dishonest_support(support, weight_till_now, beta, slashing),
        beta == 0 || slashing == 0 ==> dishonest_support(support, weight_till_now, beta, slashing)
            == 0,
{
    let now = weight_till_now / 100;
    let left = (total - weight_till_now) / 100;
    assert(0 <= now * beta && 0 <= now * slashing && 0 <= now * (beta + 1) && 0 <= now * 100)
        by (nonlinear_arith)
        requires
            now >= 0,
            beta >= 0,
            slashing >= 0,
    ;
    assert(left * (100 - beta) == left * (100 - (beta + 1)) + left) by (nonlinear_arith);
    assert(left * (100 - 100) == 0);
    if beta == 0 {
        assert(now * beta == 0) by (nonlinear_arith)
            requires
                beta == 0,
        ;
    }
    if slashing == 0 {
        assert(now * slashing == 0) by (nonlinear_arith)
            requires
                slashing == 0,
        ;
    }
}

/// A capped number is the number itself as far as it fits into 64 bits, and the largest one that
/// does from there on.
pub proof fn law_cap(x: int)
    ensures
        x <= u64::MAX ==> cap(x) == x,
        x >= u64::MAX ==> cap(x) == u64::MAX,
{
}

/// The measured weight of a range that holds no entire epoch is the committee's.
pub proof fn law_measured_weight_is_the_committees(start: Slot, end: Slot, total: u64)
    requires
        start.0 <= end.0,
        !full_epoch_covered(start, end, SLOTS_PER_EPOCH),
    ensures
        bench_weight(start, end, total) == committee_weight(start, end, total, SLOTS_PER_EPOCH),
{
    if start.0 / SLOTS_PER_EPOCH == end.0 / SLOTS_PER_EPOCH {
        lemma_between(start.0, start.0, end.0, SLOTS_PER_EPOCH);
        lemma_fundamental_div_mod(start.0 as int, SLOTS_PER_EPOCH as int);
        lemma_fundamental_div_mod(end.0 as int, SLOTS_PER_EPOCH as int);
    }
}

/// The measured inequality is the plain one as long as twice the support fits into 64 bits: what
/// does not fit on the other side is more than that.
pub proof fn law_measured_inequality(
    support: u64,
    committee_weight: u64,
    proposer_score: u64,
    beta_percentage: u64,
)
    requires
        2 * support <= u64::MAX,
    ensures
        outweighs_saturating(support, committee_weight, proposer_score, beta_percentage) <==> 2
            * support > committee_weight + committee_weight / 50 * beta_percentage
            + proposer_score,
{
}

} // verus!
