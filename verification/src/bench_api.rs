//! Entry points for benchmarks of the rule's arithmetic and bookkeeping, with mainnet's epochs.

use crate::committee_weight::{
    adjust_committee_weight_estimate_to_ensure_safety, adjusted,
    calculate_cross_epoch_weight_estimate, cap, cross_epoch_estimate, ffg_weight_till_slot,
    full_epoch_covered, get_ffg_weight_till_slot, is_full_validator_set_covered, lemma_pro_rata,
};
use crate::config::{
    FastConfirmationConfig, DEFAULT_FCR_BYZANTINE_THRESHOLD_PERCENTAGE,
    DEFAULT_FCR_SLASHING_THRESHOLD_PERCENTAGE,
};
use crate::fast_confirmation::FastConfirmation;
use crate::memory::{unconfirmed, FastConfirmationView, FcrMeta};
use crate::root_map::RootMap;
use crate::rule::{initial_store, Rule};
use crate::state_provider::{CheckpointState, StateProvider};
use crate::types::{epoch_of, sat_add, sat_sub, Checkpoint, Epoch, Hash256, Slot};
use vstd::arithmetic::div_mod::lemma_fundamental_div_mod;
use vstd::prelude::*;
use zerocopy::AsBytes;

verus! {

/// The slots of an epoch on mainnet.
pub const SLOTS_PER_EPOCH: u64 = 32;

/// The effective balance of a validator, in gwei.
pub const VALIDATOR_BALANCE: u64 = 32_000_000_000;

/// A provider that never has a state at hand.
#[derive(Debug, Clone, Copy)]
pub struct DummyProvider;

impl StateProvider for DummyProvider {
    type Error = core::convert::Infallible;

    fn get_checkpoint_state(&self, _checkpoint: &Checkpoint) -> (r: Result<
        Option<CheckpointState>,
        core::convert::Infallible,
    >)
        ensures
            r == Ok::<Option<CheckpointState>, core::convert::Infallible>(None),
    {
        Ok(None)
    }

    fn get_total_active_balance_at_epoch(&self, _epoch: Epoch) -> (r: Result<
        u64,
        core::convert::Infallible,
    >)
        ensures
            r == Ok::<u64, core::convert::Infallible>(0),
    {
        Ok(0)
    }
}

/// A fresh instance with the default thresholds and no states at hand.
pub fn fcr() -> (r: FastConfirmation<DummyProvider>)
    ensures
        r.wf(),
        r@ == (FastConfirmationView {
            rule: Rule {
                config: FastConfirmationConfig {
                    beta_percentage: DEFAULT_FCR_BYZANTINE_THRESHOLD_PERCENTAGE,
                    slashing_percentage: DEFAULT_FCR_SLASHING_THRESHOLD_PERCENTAGE,
                },
                slots_per_epoch: SLOTS_PER_EPOCH,
                store: initial_store(),
                provider: DummyProvider,
            },
            meta: Map::empty(),
        }),
{
    let config = FastConfirmationConfig {
        beta_percentage: DEFAULT_FCR_BYZANTINE_THRESHOLD_PERCENTAGE,
        slashing_percentage: DEFAULT_FCR_SLASHING_THRESHOLD_PERCENTAGE,
    };
    FastConfirmation::new(config, SLOTS_PER_EPOCH, DummyProvider)
}

/// An estimate with its safety margin.
pub fn bench_adjust_committee_weight_estimate(estimate: u64) -> (r: u64)
    requires
        adjusted(estimate as int) <= u64::MAX,
    ensures
        r == adjusted(estimate as int),
{
    adjust_committee_weight_estimate_to_ensure_safety(estimate) as u64
}

/// The stake that votes in a range of slots that runs over an epoch boundary.
pub fn bench_calculate_cross_epoch_weight_estimate(
    start_slot: Slot,
    end_slot: Slot,
    total_active_balance: u64,
) -> (r: u64)
    ensures
        r == cap(
            cross_epoch_estimate(start_slot, end_slot, total_active_balance, SLOTS_PER_EPOCH),
        ),
{
    calculate_cross_epoch_weight_estimate(
        start_slot,
        end_slot,
        total_active_balance,
        SLOTS_PER_EPOCH,
    )
}

/// The stake whose turn to vote for `epoch` has come before `slot`.
pub fn bench_get_ffg_weight_till_slot(
    slot: Slot,
    epoch: Epoch,
    total_active_balance: u64,
) -> (r: u64)
    ensures
        r == ffg_weight_till_slot(slot, epoch, total_active_balance, SLOTS_PER_EPOCH),
{
    get_ffg_weight_till_slot(slot, epoch, total_active_balance, SLOTS_PER_EPOCH)
}

/// Whether a range of slots holds an entire epoch.
pub fn bench_is_full_validator_set_covered(start_slot: Slot, end_slot: Slot) -> (r: bool)
    ensures
        r == full_epoch_covered(start_slot, end_slot, SLOTS_PER_EPOCH),
{
    is_full_validator_set_covered(start_slot, end_slot, SLOTS_PER_EPOCH)
}

/// Whether the support outweighs the committee, in saturating 64-bit arithmetic.
pub open spec fn outweighs_saturating(
    support: u64,
    committee_weight: u64,
    proposer_score: u64,
    beta_percentage: u64,
) -> bool {
    cap(2 * support) > cap(
        committee_weight + committee_weight / 50 * beta_percentage + proposer_score,
    )
}

/// Whether the support outweighs the committee, in saturating 64-bit arithmetic.
pub fn bench_is_one_confirmed_math(
    support: u64,
    committee_weight: u64,
    proposer_score: u64,
    beta_percentage: u64,
) -> (r: bool)
    requires
        committee_weight / 50 * beta_percentage <= u64::MAX,
    ensures
        r == outweighs_saturating(support, committee_weight, proposer_score, beta_percentage),
{
    let left: u64 = support.saturating_add(support);
    assert(0 <= committee_weight / 50 * beta_percentage) by (nonlinear_arith);
    let margin: u64 = committee_weight / 50 * beta_percentage;
    let right: u64 = committee_weight.saturating_add(margin).saturating_add(proposer_score);
    left > right
}

/// The stake that could have voted in a range of slots: in proportion to the slots within one
/// epoch, and the cross-epoch estimate with its margin otherwise.
pub open spec fn bench_weight(start_slot: Slot, end_slot: Slot, total_active_balance: u64) -> int {
    if epoch_of(start_slot, SLOTS_PER_EPOCH) == epoch_of(end_slot, SLOTS_PER_EPOCH) {
        total_active_balance / SLOTS_PER_EPOCH * sat_add(sat_sub(end_slot.0, start_slot.0), 1)
    } else {
        adjusted(
            cap(
                cross_epoch_estimate(start_slot, end_slot, total_active_balance, SLOTS_PER_EPOCH),
            ),
        )
    }
}

/// Whether the support outweighs the committee of a range of slots.
pub fn bench_is_one_confirmed_w_estimate(
    support: u64,
    total_active_balance: u64,
    start_slot: Slot,
    end_slot: Slot,
    proposer_score: u64,
    beta_percentage: u64,
) -> (r: bool)
    requires
        bench_weight(start_slot, end_slot, total_active_balance) <= u64::MAX,
        bench_weight(start_slot, end_slot, total_active_balance) / 50 * beta_percentage
            <= u64::MAX,
    ensures
        r == outweighs_saturating(
            support,
            bench_weight(start_slot, end_slot, total_active_balance) as u64,
            proposer_score,
            beta_percentage,
        ),
{
    let w: u64 = if start_slot.epoch(SLOTS_PER_EPOCH) == end_slot.epoch(SLOTS_PER_EPOCH) {
        let slots_covered: u64 = end_slot.0.saturating_sub(start_slot.0).saturating_add(1);
        let weight_per_slot: u64 = total_active_balance / SLOTS_PER_EPOCH;
        proof {
            lemma_fundamental_div_mod(start_slot.0 as int, SLOTS_PER_EPOCH as int);
            lemma_fundamental_div_mod(end_slot.0 as int, SLOTS_PER_EPOCH as int);
            lemma_pro_rata(
                total_active_balance as int,
                SLOTS_PER_EPOCH as int,
                slots_covered as int,
            );
        }
        weight_per_slot * slots_covered
    } else {
        let estimate = calculate_cross_epoch_weight_estimate(
            start_slot,
            end_slot,
            total_active_balance,
            SLOTS_PER_EPOCH,
        );
        adjust_committee_weight_estimate_to_ensure_safety(estimate) as u64
    };
    bench_is_one_confirmed_math(support, w, proposer_score, beta_percentage)
}

/// The hook that runs after fork choice finds a head, with nothing to do.
pub fn bench_update_fcr_after_find_head() {
}

/// Nothing, as a baseline.
pub fn bench_no_op() {
}

/// The stake that votes in one slot, with `validator_count` validators.
pub fn bench_committee_weight_with_validators(validator_count: u64) -> (r: u64)
    requires
        validator_count * VALIDATOR_BALANCE <= u64::MAX,
    ensures
        r == validator_count * VALIDATOR_BALANCE / SLOTS_PER_EPOCH as int,
{
    let total_active_balance: u64 = validator_count * VALIDATOR_BALANCE;
    total_active_balance / SLOTS_PER_EPOCH
}

/// Two thirds of the stake of `validator_count` validators.
pub fn bench_ffg_support_with_validators(validator_count: u64) -> (r: u64)
    requires
        validator_count * VALIDATOR_BALANCE * 2 <= u64::MAX,
    ensures
        r == validator_count * VALIDATOR_BALANCE * 2 / 3,
{
    let total_active_balance: u64 = validator_count * VALIDATOR_BALANCE;
    total_active_balance * 2 / 3
}

/// What is remembered of the blocks whose roots are the numbers below `count`, before any of them
/// is seen.
pub open spec fn numbered_meta(count: u64) -> Map<Hash256, FcrMeta> {
    Map::new(
        |root: Hash256| root.hi == 0 && root.lo < count,
        |root: Hash256| unconfirmed(Slot(0)),
    )
}

/// A memory of the blocks whose roots are the numbers below `count`.
fn numbered_blocks(count: u64) -> (r: RootMap<FcrMeta>)
    ensures
        r.wf(),
        r@ == numbered_meta(count),
        r@.dom().finite(),
        r@.len() == count,
{
    let mut meta: RootMap<FcrMeta> = RootMap::new();
    let mut i: u64 = 0;
    while i < count
        invariant
            i <= count,
            meta.wf(),
            meta@ =~= numbered_meta(i),
            meta@.dom().finite(),
            meta@.len() == i,
        decreases count - i,
    {
        meta.insert(Hash256::from_low_u64_be(i), FcrMeta::default());
        i = i + 1;
    }
    meta
}

/// Builds up the memory of a thousand blocks.
pub fn bench_fcr_metadata_growth() {
    let _meta = numbered_blocks(1000);
}

/// The bytes of an array, through `zerocopy::AsBytes::as_bytes`, which views a value as the bytes
/// that it is made of. An array of bytes is made of its elements, in their order.
#[verifier::external_body]
fn bytes_of(array: &[u8; 32]) -> (r: &[u8])
    ensures
        r@ == array@,
{
    array.as_bytes()
}

/// Forgets the blocks whose roots start with an odd byte.
pub fn retain_even_roots(meta: &mut RootMap<FcrMeta>)
    requires
        old(meta).wf(),
    ensures
        final(meta).wf(),
        final(meta)@ == old(meta)@.restrict(
            Set::new(|root: Hash256| root.byte(0) % 2 == 0),
        ),
{
    let keep = |root: &Hash256| -> (kept: bool)
        ensures
            kept == (root.byte(0) % 2 == 0),
        {
            let array = root.to_bytes();
            bytes_of(&array)[0] % 2 == 0
        };
    meta.retain(keep, Ghost(|root: Hash256| root.byte(0) % 2 == 0));
}

/// Builds up the memory of a thousand blocks, and forgets those whose roots start with an odd byte.
pub fn bench_fcr_pruning() {
    let mut meta = numbered_blocks(1000);
    retain_even_roots(&mut meta);
}

/// How many blocks are remembered when there is one for each thousand validators.
pub fn bench_memory_usage_with_validators(validator_count: u64) -> (r: usize)
    requires
        validator_count / 1000 <= usize::MAX,
    ensures
        r == (if validator_count < 1000 {
            1
        } else {
            validator_count / 1000
        }),
{
    let entries: u64 = if validator_count / 1000 > 1 {
        validator_count / 1000
    } else {
        1
    };
    numbered_blocks(entries).len()
}

/// Compares the last slot of an epoch with the first one of the next.
pub fn bench_epoch_boundary_transition() {
    let current_slot = Slot::new(31);
    let next_slot = Slot::new(32);
    let _is_boundary = current_slot.epoch(SLOTS_PER_EPOCH) != next_slot.epoch(SLOTS_PER_EPOCH);
}

/// Compares a head with a confirmed block.
pub fn bench_reorg_detection() {
    let head_root = Hash256::from_low_u64_be(100);
    let confirmed_root = Hash256::from_low_u64_be(99);
    let _is_reorg = head_root != confirmed_root;
}

/// Compares the slot of a late vote with the current one.
pub fn bench_late_attestation_handling() {
    let current_slot = Slot::new(100);
    let attestation_slot = Slot::new(98);
    let _is_late = attestation_slot.0 < current_slot.0;
}

/// A safe head.
pub fn bench_safe_head_calculation() -> (r: Hash256)
    ensures
        r == (Hash256 { hi: 0, lo: 100 }),
{
    Hash256::from_low_u64_be(100)
}

/// Compares two safe heads.
pub fn bench_safe_head_reorg() {
    let old_safe_head = Hash256::from_low_u64_be(99);
    let new_safe_head = Hash256::from_low_u64_be(100);
    let _is_reorg = old_safe_head != new_safe_head;
}

/// A later safe head.
pub fn bench_safe_head_advancement() -> (r: Hash256)
    ensures
        r == (Hash256 { hi: 0, lo: 101 }),
{
    Hash256::from_low_u64_be(101)
}

/// Compares two epochs.
pub fn bench_cross_epoch_confirmation() {
    let start_epoch = Epoch::new(0);
    let end_epoch = Epoch::new(1);
    let _crosses_epoch = end_epoch.0 > start_epoch.0;
}

/// The stake that votes in one slot, with a thousand validators.
pub fn bench_epoch_boundary_weights() -> (r: u64)
    ensures
        r == 1_000_000_000_000,
{
    let total_active_balance: u64 = 32_000_000_000_000;
    total_active_balance / SLOTS_PER_EPOCH
}

} // verus!
