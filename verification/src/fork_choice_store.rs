//! What the confirmation rule reads of the fork choice's own store.

use crate::types::{Checkpoint, Hash256, Slot};
use vstd::prelude::*;

verus! {

/// The validators' balances in the justified state.
#[derive(Debug, Clone)]
pub struct JustifiedBalances {
    /// The effective balance of each validator, zero for one that is not active.
    pub effective_balances: Vec<u64>,
    /// The balance of all active validators together.
    pub total_effective_balance: u64,
}

/// The state of the fork choice in one slot.
#[derive(Debug, Clone)]
pub struct ForkChoiceStore {
    /// The slot that is under way.
    pub current_slot: Slot,
    /// The justified checkpoint.
    pub justified_checkpoint: Checkpoint,
    /// The checkpoint that would be justified if the epoch ended now.
    pub unrealized_justified_checkpoint: Checkpoint,
    /// The finalized checkpoint.
    pub finalized_checkpoint: Checkpoint,
    /// The balances of the justified state.
    pub justified_balances: JustifiedBalances,
}

/// The outcome of the fork choice's latest run.
#[derive(Debug, Clone, Copy, PartialEq, Eq, Structural)]
pub struct ForkchoiceUpdateParameters {
    /// The head of the canonical chain.
    pub head_root: Hash256,
}

} // verus!
