//! The arithmetic of slots, epochs and roots.

use crate::types::{epoch_of, epoch_start, is_epoch_start, sat_add, sat_sub, Epoch, Hash256, Slot};
use vstd::arithmetic::div_mod::{
    lemma_div_multiples_vanish, lemma_fundamental_div_mod, lemma_mod_multiples_basic,
};
use vstd::prelude::*;

verus! {

/// Every slot lies in its epoch: not before the epoch's first slot, and before the next epoch's.
/// It is the first one of its epoch exactly if it lies on the boundary.
pub proof fn law_slots_lie_in_their_epochs(slot: Slot, slots_per_epoch: u64)
    requires
        slots_per_epoch > 0,
    ensures
        epoch_of(slot, slots_per_epoch).0 * slots_per_epoch <= slot.0,
        slot.0 < epoch_of(slot, slots_per_epoch).0 * slots_per_epoch + slots_per_epoch,
        is_epoch_start(slot, slots_per_epoch) <==> slot.0 == epoch_of(slot, slots_per_epoch).0
            * slots_per_epoch,
{
    let n = slots_per_epoch as int;
    let q = slot.0 as int / n;
    lemma_fundamental_div_mod(slot.0 as int, n);
    assert(n * q == q * n) by (nonlinear_arith);
}

/// An epoch begins with its own first slot, as many slots after the one before it as an epoch
/// has. One that would begin past the last slot there is begins with that.
pub proof fn law_epochs_follow_each_other(epoch: Epoch, slots_per_epoch: u64)
    requires
        slots_per_epoch > 0,
    ensures
        epoch.0 * slots_per_epoch <= u64::MAX ==> epoch_of(
            Slot(epoch_start(epoch, slots_per_epoch)),
            slots_per_epoch,
        ) == epoch && is_epoch_start(Slot(epoch_start(epoch, slots_per_epoch)), slots_per_epoch),
        epoch.0 * slots_per_epoch > u64::MAX ==> epoch_start(epoch, slots_per_epoch) == u64::MAX,
        epoch.0 * slots_per_epoch + slots_per_epoch <= u64::MAX ==> epoch_start(
            Epoch(sat_add(epoch.0, 1)),
            slots_per_epoch,
        ) == epoch_start(epoch, slots_per_epoch) + slots_per_epoch,
{
    let n = slots_per_epoch as int;
    let e = epoch.0 as int;
    lemma_div_multiples_vanish(e, n);
    lemma_mod_multiples_basic(e, n);
    assert(n * e == e * n) by (nonlinear_arith);
    assert((e + 1) * n == e * n + n) by (nonlinear_arith);
    if e * n + n <= u64::MAX {
        assert(e < u64::MAX) by (nonlinear_arith)
            requires
                e * n + n <= u64::MAX,
                n >= 1,
                e >= 0,
        ;
    }
}

/// Saturating sums and differences are the plain ones wherever these can be had, and stop at the
/// ends of the range elsewhere.
pub proof fn law_saturation(a: u64, b: u64)
    ensures
        a + b <= u64::MAX ==> sat_add(a, b) == a + b,
        a + b >= u64::MAX ==> sat_add(a, b) == u64::MAX,
        sat_sub(a, b) + b == a || (a < b && sat_sub(a, b) == 0),
        a + b <= u64::MAX ==> sat_sub(sat_add(a, b), b) == a,
{
}

/// Of two roots that differ, exactly one precedes the other; and what precedes a root also
/// precedes those after it.
pub proof fn law_roots_are_ordered(a: Hash256, b: Hash256, c: Hash256)
    ensures
        !a.precedes(a),
        a != b ==> a.precedes(b) != b.precedes(a),
        a.precedes(b) && b.precedes(c) ==> a.precedes(c),
        a != Hash256::spec_zero() ==> Hash256::spec_zero().precedes(a),
{
}

} // verus!
