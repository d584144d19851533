//! What holds of the rule as a whole, proved from the contracts of its parts.

pub mod ancestry;
pub mod bookkeeping;
pub mod checks;
pub mod clock;
pub mod confirmation;
pub mod latest;
pub mod memory;
pub mod search;
pub mod shares;
pub mod text;
pub mod votes;
pub mod weights;
