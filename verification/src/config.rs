//! The thresholds of the confirmation rule.

use crate::text::{append_decimal, decimal};
use vstd::prelude::*;
use vstd::string::StringExecFns;

verus! {

/// The byzantine threshold, in percent, that is used unless another one is given: the largest
/// share of the stake that the rule grants an adversary.
pub const DEFAULT_FCR_BYZANTINE_THRESHOLD_PERCENTAGE: u64 = 33;

/// The slashing threshold, in percent, that is used unless another one is given: the largest
/// share of the stake that can be slashed for equivocation.
pub const DEFAULT_FCR_SLASHING_THRESHOLD_PERCENTAGE: u64 = 33;

/// The thresholds of the confirmation rule.
#[derive(Debug, Clone, Copy, PartialEq, Eq, Structural)]
pub struct FastConfirmationConfig {
    /// The byzantine threshold in percent.
    pub beta_percentage: u64,
    /// The slashing threshold in percent.
    pub slashing_percentage: u64,
}

/// Why a byzantine threshold is refused.
pub open spec fn byzantine_threshold_message(beta_percentage: u64) -> Seq<char> {
    "Invalid byzantine threshold: "@ + decimal(beta_percentage as nat) + "%, must be < 50%"@
}

/// Why a slashing threshold is refused.
pub open spec fn slashing_threshold_message(slashing_percentage: u64) -> Seq<char> {
    "Invalid slashing threshold: "@ + decimal(slashing_percentage as nat) + "%, must be <= 100%"@
}

/// The outcome of making a configuration out of two thresholds.
pub open spec fn config_outcome(
    beta_percentage: u64,
    slashing_percentage: u64,
    outcome: Result<FastConfirmationConfig, String>,
) -> bool {
    match outcome {
        Ok(config) => beta_percentage < 50 && slashing_percentage <= 100 && config == (
        FastConfirmationConfig { beta_percentage, slashing_percentage }),
        Err(message) => if beta_percentage >= 50 {
            message@ == byzantine_threshold_message(beta_percentage)
        } else {
            slashing_percentage > 100 && message@ == slashing_threshold_message(
                slashing_percentage,
            )
        },
    }
}

impl FastConfirmationConfig {
    /// A configuration with the given byzantine threshold and the default slashing threshold.
    pub fn new(beta_percentage: u64) -> (r: Result<FastConfirmationConfig, String>)
        ensures
            config_outcome(beta_percentage, DEFAULT_FCR_SLASHING_THRESHOLD_PERCENTAGE, r),
    {
        Self::new_with_slashing(beta_percentage, DEFAULT_FCR_SLASHING_THRESHOLD_PERCENTAGE)
    }

    /// A configuration with the given byzantine and slashing thresholds. The first has to be less
    /// than 50 percent, and the second no more than 100 percent.
    pub fn new_with_slashing(beta_percentage: u64, slashing_percentage: u64) -> (r: Result<
        FastConfirmationConfig,
        String,
    >)
        ensures
            config_outcome(beta_percentage, slashing_percentage, r),
    {
        if beta_percentage >= 50 {
            let mut message = "Invalid byzantine threshold: ".to_owned();
            append_decimal(&mut message, beta_percentage);
            message.append("%, must be < 50%");
            return Err(message);
        }
        if slashing_percentage > 100 {
            let mut message = "Invalid slashing threshold: ".to_owned();
            append_decimal(&mut message, slashing_percentage);
            message.append("%, must be <= 100%");
            return Err(message);
        }
        Ok(FastConfirmationConfig { beta_percentage, slashing_percentage })
    }
}

} // verus!
