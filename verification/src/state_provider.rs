//! Access to the states at past checkpoints.

use crate::types::{Checkpoint, Epoch};
use vstd::prelude::*;

verus! {

/// What the confirmation rule reads of a validator in a beacon state.
#[derive(Debug, Clone, Copy, PartialEq, Eq, Structural)]
pub struct CheckpointValidator {
    /// The effective balance of the validator.
    pub effective_balance: u64,
    /// Whether the validator was slashed.
    pub slashed: bool,
}

/// What the confirmation rule reads of a beacon state.
#[derive(Debug, Clone)]
pub struct CheckpointState {
    /// The balance of all active validators together, where the state can tell.
    pub total_active_balance: Option<u64>,
    /// The validators, by their index.
    pub validators: Vec<CheckpointValidator>,
}

/// A source of the states at past checkpoints.
///
/// Nothing is assumed of what it answers: two requests for one checkpoint may be answered
/// differently.
pub trait StateProvider {
    /// Why a state could not be read.
    type Error;

    /// The state at the epoch boundary of a checkpoint, if it is at hand.
    fn get_checkpoint_state(&self, checkpoint: &Checkpoint) -> Result<
        Option<CheckpointState>,
        Self::Error,
    >;

    /// The balance of all validators that are active in an epoch.
    fn get_total_active_balance_at_epoch(&self, epoch: Epoch) -> Result<u64, Self::Error>;
}

/// The state that an answer of a provider brings; an error brings none.
pub open spec fn found_state<E>(answer: Result<Option<CheckpointState>, E>) -> Option<
    CheckpointState,
> {
    match answer {
        Ok(state) => state,
        Err(_) => None,
    }
}

/// Whether the provider can answer a request for `checkpoint` in a way that brings `state`.
pub open spec fn may_find<S: StateProvider>(
    provider: &S,
    checkpoint: Checkpoint,
    state: Option<CheckpointState>,
) -> bool {
    exists|answer: Result<Option<CheckpointState>, S::Error>| #[trigger]
        call_ensures(S::get_checkpoint_state, (provider, &checkpoint), answer) && state
            == found_state(answer)
}

/// Asks the provider for the state at a checkpoint; an error counts as no state.
pub fn find_state<S: StateProvider>(provider: &S, checkpoint: &Checkpoint) -> (r: Option<
    CheckpointState,
>)
    ensures
        may_find(provider, *checkpoint, r),
{
    let answer = provider.get_checkpoint_state(checkpoint);
    assert(call_ensures(S::get_checkpoint_state, (provider, checkpoint), answer));
    match answer {
        Ok(state) => state,
        Err(_) => None,
    }
}

} // verus!
