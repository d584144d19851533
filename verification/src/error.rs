//! Why a request to the confirmation rule fails.

use crate::text::{append_root, root_text};
use crate::types::Hash256;
use vstd::prelude::*;
use vstd::string::StringExecFns;

verus! {

/// Why a request to the confirmation rule fails.
#[derive(Debug, Clone, Copy, PartialEq, Eq, Structural)]
pub enum Error {
    /// The block is not in the tree.
    BlockNotFound(Hash256),
    /// The block's parent, with this root, is not in the tree.
    ParentNotFound(Hash256),
    /// The weight of the block is not known.
    WeightNotFound(Hash256),
    /// The checkpoint is not one of the current epoch.
    CheckpointNotInCurrentEpoch,
    /// The checkpoint's state cannot tell the total active balance.
    TotalActiveBalanceUnavailable,
    /// The finalized block is not in the tree.
    FinalizedBlockNotFound,
}

/// The text of an error.
pub open spec fn error_text(error: Error) -> Seq<char> {
    match error {
        Error::BlockNotFound(root) => "Block "@ + root_text(root) + " not found in proto array"@,
        Error::ParentNotFound(root) => "Parent block "@ + root_text(root)
            + " not found in proto array"@,
        Error::WeightNotFound(root) => "Failed to get weight for block "@ + root_text(root),
        Error::CheckpointNotInCurrentEpoch => "Checkpoint is not from current epoch"@,
        Error::TotalActiveBalanceUnavailable =>
            "Failed to get total active balance from checkpoint state"@,
        Error::FinalizedBlockNotFound =>
            "Finalized block not found in proto array during FCR pruning"@,
    }
}

impl Error {
    /// The text of the error.
    pub fn message(&self) -> (r: String)
        ensures
            r@ == error_text(*self),
    {
        match self {
            Error::BlockNotFound(root) => {
                let mut text = "Block ".to_owned();
                append_root(&mut text, *root);
                text.append(" not found in proto array");
                text
            },
            Error::ParentNotFound(root) => {
                let mut text = "Parent block ".to_owned();
                append_root(&mut text, *root);
                text.append(" not found in proto array");
                text
            },
            Error::WeightNotFound(root) => {
                let mut text = "Failed to get weight for block ".to_owned();
                append_root(&mut text, *root);
                text
            },
            Error::CheckpointNotInCurrentEpoch => "Checkpoint is not from current epoch".to_owned(),
            Error::TotalActiveBalanceUnavailable =>
                "Failed to get total active balance from checkpoint state".to_owned(),
            Error::FinalizedBlockNotFound =>
                "Finalized block not found in proto array during FCR pruning".to_owned(),
        }
    }
}

} // verus!
