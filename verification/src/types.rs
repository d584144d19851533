//! Plain values that the fork choice reasons about: slots, epochs, block roots and checkpoints.

use vstd::arithmetic::div_mod::lemma_div_denominator;
use vstd::arithmetic::power::{lemma_pow0, lemma_pow1, lemma_pow_adds, lemma_pow_positive, pow};
use vstd::prelude::*;

verus! {

/// The saturating sum of two 64-bit quantities.
pub open spec fn sat_add(a: u64, b: u64) -> u64 {
    if a + b > u64::MAX {
        u64::MAX
    } else {
        (a + b) as u64
    }
}

/// The saturating difference of two 64-bit quantities.
pub open spec fn sat_sub(a: u64, b: u64) -> u64 {
    if a < b {
        0
    } else {
        (a - b) as u64
    }
}

/// A slot number. Arithmetic on slots saturates at the ends of the range.
#[derive(Debug, Clone, Copy, PartialEq, Eq, PartialOrd, Ord, Hash, Structural)]
pub struct Slot(pub u64);

/// An epoch number. Arithmetic on epochs saturates at the ends of the range.
#[derive(Debug, Clone, Copy, PartialEq, Eq, PartialOrd, Ord, Hash, Structural)]
pub struct Epoch(pub u64);

/// The epoch that holds `slot` when every epoch has `slots_per_epoch` slots.
pub open spec fn epoch_of(slot: Slot, slots_per_epoch: u64) -> Epoch {
    Epoch(slot.0 / slots_per_epoch)
}

/// Whether `slot` is the first slot of its epoch.
pub open spec fn is_epoch_start(slot: Slot, slots_per_epoch: u64) -> bool {
    slot.0 % slots_per_epoch == 0
}

impl Slot {
    /// The slot with the given number.
    pub fn new(slot: u64) -> (r: Slot)
        ensures
            r == Slot(slot),
    {
        Slot(slot)
    }

    /// The slot's number.
    pub fn as_u64(self) -> (r: u64)
        ensures
            r == self.0,
    {
        self.0
    }

    /// The epoch that holds this slot.
    pub fn epoch(self, slots_per_epoch: u64) -> (r: Epoch)
        requires
            slots_per_epoch > 0,
        ensures
            r == epoch_of(self, slots_per_epoch),
    {
        Epoch(self.0 / slots_per_epoch)
    }

    /// Whether this is the first slot of its epoch.
    pub fn is_epoch_start(self, slots_per_epoch: u64) -> (r: bool)
        requires
            slots_per_epoch > 0,
        ensures
            r == is_epoch_start(self, slots_per_epoch),
    {
        self.0 % slots_per_epoch == 0
    }

    /// The slot `n` later, saturating.
    pub fn saturating_add(self, n: u64) -> (r: Slot)
        ensures
            r == Slot(sat_add(self.0, n)),
    {
        Slot(self.0.saturating_add(n))
    }

    /// The slot `n` earlier, saturating.
    pub fn saturating_sub(self, n: u64) -> (r: Slot)
        ensures
            r == Slot(sat_sub(self.0, n)),
    {
        Slot(self.0.saturating_sub(n))
    }
}

impl Epoch {
    /// The epoch with the given number.
    pub fn new(epoch: u64) -> (r: Epoch)
        ensures
            r == Epoch(epoch),
    {
        Epoch(epoch)
    }

    /// The epoch's number.
    pub fn as_u64(self) -> (r: u64)
        ensures
            r == self.0,
    {
        self.0
    }

    /// The epoch `n` later, saturating.
    pub fn saturating_add(self, n: u64) -> (r: Epoch)
        ensures
            r == Epoch(sat_add(self.0, n)),
    {
        Epoch(self.0.saturating_add(n))
    }

    /// The epoch `n` earlier, saturating.
    pub fn saturating_sub(self, n: u64) -> (r: Epoch)
        ensures
            r == Epoch(sat_sub(self.0, n)),
    {
        Epoch(self.0.saturating_sub(n))
    }

    /// The first slot of this epoch, saturating.
    pub fn start_slot(self, slots_per_epoch: u64) -> (r: Slot)
        ensures
            r == Slot(epoch_start(self, slots_per_epoch)),
    {
        assert(self.0 * slots_per_epoch <= u64::MAX * u64::MAX) by (nonlinear_arith)
            requires
                self.0 <= u64::MAX,
                slots_per_epoch <= u64::MAX,
        ;
        let product: u128 = (self.0 as u128) * (slots_per_epoch as u128);
        if product > u64::MAX as u128 {
            Slot(u64::MAX)
        } else {
            Slot(product as u64)
        }
    }
}

/// The number of the first slot of `epoch`, saturating.
pub open spec fn epoch_start(epoch: Epoch, slots_per_epoch: u64) -> u64 {
    if epoch.0 * slots_per_epoch > u64::MAX {
        u64::MAX
    } else {
        (epoch.0 * slots_per_epoch) as u64
    }
}

/// A 256-bit block root, held as two big-endian halves.
#[derive(Debug, Clone, Copy, PartialEq, Eq, PartialOrd, Ord, Hash, Structural)]
pub struct Hash256 {
    /// The first sixteen bytes.
    pub hi: u128,
    /// The last sixteen bytes.
    pub lo: u128,
}

impl Hash256 {
    /// Whether this root comes before `other` in the byte order of roots.
    pub open spec fn precedes(self, other: Hash256) -> bool {
        self.hi < other.hi || (self.hi == other.hi && self.lo < other.lo)
    }

    /// The root whose bytes are all zero.
    pub open spec fn spec_zero() -> Hash256 {
        Hash256 { hi: 0, lo: 0 }
    }

    /// Byte `i` of the root, the first one being number zero.
    pub open spec fn byte(self, i: int) -> u8 {
        if i < 16 {
            low_byte(self.hi, 15 - i)
        } else {
            low_byte(self.lo, 31 - i)
        }
    }

    /// The root whose bytes are all zero.
    pub fn zero() -> (r: Hash256)
        ensures
            r == Hash256::spec_zero(),
    {
        Hash256 { hi: 0, lo: 0 }
    }

    /// Whether all bytes are zero.
    pub fn is_zero(&self) -> (r: bool)
        ensures
            r == (*self == Hash256::spec_zero()),
    {
        self.hi == 0 && self.lo == 0
    }

    /// The root that is `value` as a big-endian number.
    pub fn from_low_u64_be(value: u64) -> (r: Hash256)
        ensures
            r == (Hash256 { hi: 0, lo: value as u128 }),
    {
        Hash256 { hi: 0, lo: value as u128 }
    }

    /// Whether this root comes before `other` in the byte order of roots.
    pub fn is_before(&self, other: &Hash256) -> (r: bool)
        ensures
            r == self.precedes(*other),
    {
        self.hi < other.hi || (self.hi == other.hi && self.lo < other.lo)
    }

    /// The bytes of the root.
    pub fn to_bytes(&self) -> (r: [u8; 32])
        ensures
            forall|i: int| 0 <= i < 32 ==> #[trigger] r@[i] == self.byte(i),
    {
        let mut bytes: [u8; 32] = [0;32];
        let mut hi: u128 = self.hi;
        let mut lo: u128 = self.lo;
        let mut k: usize = 0;
        proof {
            lemma_pow0(256);
        }
        while k < 16
            invariant
                k <= 16,
                hi == self.hi as int / pow(256, k as nat),
                lo == self.lo as int / pow(256, k as nat),
                forall|i: int| 16 - k <= i < 16 ==> #[trigger] bytes@[i] == self.byte(i),
                forall|i: int| 32 - k <= i < 32 ==> #[trigger] bytes@[i] == self.byte(i),
            decreases 16 - k,
        {
            bytes[15 - k] = (hi % 256) as u8;
            bytes[31 - k] = (lo % 256) as u8;
            proof {
                lemma_pow_positive(256, k as nat);
                lemma_pow1(256);
                lemma_pow_adds(256, k as nat, 1);
                lemma_div_denominator(self.hi as int, pow(256, k as nat), 256);
                lemma_div_denominator(self.lo as int, pow(256, k as nat), 256);
            }
            hi = hi / 256;
            lo = lo / 256;
            k = k + 1;
        }
        bytes
    }
}

/// Byte `k` of a number, the lowest one being number zero.
pub open spec fn low_byte(value: u128, k: int) -> u8 {
    (value as int / pow(256, k as nat) % 256) as u8
}

/// An epoch together with the root of the block that stands for it.
#[derive(Debug, Clone, Copy, PartialEq, Eq, Hash, Structural)]
pub struct Checkpoint {
    /// The checkpoint's epoch.
    pub epoch: Epoch,
    /// The checkpoint's block root.
    pub root: Hash256,
}

/// The checkpoint of the genesis epoch with the zero root.
pub open spec fn default_checkpoint() -> Checkpoint {
    Checkpoint { epoch: Epoch(0), root: Hash256::spec_zero() }
}

impl Default for Checkpoint {
    fn default() -> (r: Checkpoint)
        ensures
            r == default_checkpoint(),
    {
        Checkpoint { epoch: Epoch(0), root: Hash256::zero() }
    }
}

} // verus!
