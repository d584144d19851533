//! The Fast Confirmation Rule for proof-of-stake fork choice.
//!
//! A block is confirmed once the votes seen for it outweigh whatever an adversary with a bounded
//! share of the stake could still bring against it, which under a synchronous network takes a slot
//! or two. [`FastConfirmation`] keeps the latest confirmed block and the safe head up to date, slot
//! by slot and head by head.
//!
//! The rule itself is stated in [`rule`] and [`memory`], over what the tree of blocks, the fork
//! choice's store and the state provider hold. What holds of it as a whole is proved in [`laws`].

pub mod bench_api;
pub mod committee_weight;
pub mod config;
pub mod error;
pub mod fast_confirmation;
pub mod ffg;
pub mod fork_choice_store;
pub mod laws;
pub mod memory;
pub mod metrics;
pub mod proto_array;
pub mod root_map;
pub mod rule;
pub mod state_provider;
pub mod text;
pub mod types;
pub mod votes;

pub use crate::config::{
    FastConfirmationConfig, DEFAULT_FCR_BYZANTINE_THRESHOLD_PERCENTAGE,
    DEFAULT_FCR_SLASHING_THRESHOLD_PERCENTAGE,
};
pub use crate::error::Error;
pub use crate::fast_confirmation::{FastConfirmation, SafeHeadMetrics};
pub use crate::fork_choice_store::{ForkChoiceStore, ForkchoiceUpdateParameters, JustifiedBalances};
pub use crate::memory::FcrMeta;
pub use crate::proto_array::{LatestMessage, ProtoArrayForkChoice, ProtoBlock};
pub use crate::rule::FcrStore;
pub use crate::state_provider::{CheckpointState, StateProvider};
pub use crate::types::{Checkpoint, Epoch, Hash256, Slot};
