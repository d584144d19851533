//! What the confirmation rule reports of its work, for the node's metrics.

use crate::fast_confirmation::FastConfirmation;
use crate::state_provider::StateProvider;
use crate::types::{is_epoch_start, sat_sub, Hash256, Slot};
use vstd::prelude::*;

verus! {

/// How many slots a confirmation took, in the classes that are counted apart.
#[derive(Debug, Clone, Copy, PartialEq, Eq, Structural)]
pub enum DelayBucket {
    /// Confirmed in the block's own slot.
    Zero,
    /// Confirmed one slot later.
    One,
    /// Confirmed two slots later.
    Two,
    /// Confirmed three or more slots later.
    ThreeOrMore,
}

/// How late a tail case is.
#[derive(Debug, Clone, Copy, PartialEq, Eq, Structural)]
pub enum TailBucket {
    /// Confirmed two slots later.
    Two,
    /// Confirmed three slots later.
    Three,
    /// Confirmed four or more slots later.
    FourOrMore,
}

/// A confirmation that took two or more slots.
#[derive(Debug, Clone, Copy, PartialEq, Eq, Structural)]
pub struct TailCase {
    /// Whether the confirmation came in the first slot of an epoch.
    pub epoch_boundary: bool,
    /// How late it came.
    pub delay_bucket: TailBucket,
}

/// How long a confirmation took.
#[derive(Debug, Clone, Copy, PartialEq, Eq, Structural)]
pub struct ConfirmationDelay {
    /// The slots from the block's creation to its confirmation.
    pub slots: u64,
    /// The class of the delay.
    pub bucket: DelayBucket,
    /// The tail case that the confirmation is, if it is one.
    pub tail_case: Option<TailCase>,
}

/// What is recorded when a block is confirmed.
#[derive(Debug, Clone, Copy, PartialEq, Eq, Structural)]
pub struct ConfirmationRecord {
    /// How long the confirmation took; nothing for a block of a slot that is still to come.
    pub delay: Option<ConfirmationDelay>,
    /// The slots from the block to the head, if the block is known.
    pub head_gap_slots: Option<u64>,
}

/// Why the rule went back to the finalized block.
#[derive(Debug, Clone, Copy, PartialEq, Eq, Structural)]
pub enum Restart {
    /// The confirmed block is no longer on the head's chain. Holds the slots by which the new
    /// confirmed block lies before it, if the new one is known; zero if it does not lie before.
    Reorg(Option<u64>),
    /// The confirmed block is too old, or no longer known.
    Stale,
}

/// The latest confirmed block, and how the rule came to it.
#[derive(Debug, Clone, Copy, PartialEq, Eq, Structural)]
pub struct LatestConfirmation {
    /// The latest confirmed block.
    pub root: Hash256,
    /// Why the rule went back to the finalized block, if it did.
    pub restart: Option<Restart>,
    /// The slots by which the confirmed block moved back, if it did.
    pub rollback_slots: Option<u64>,
}

/// What a new slot changed.
#[derive(Debug, Clone, Copy, PartialEq, Eq, Structural)]
pub struct SlotUpdate {
    /// Whether the slot is the first one of an epoch.
    pub epoch_boundary: bool,
    /// The latest confirmed block.
    pub latest: LatestConfirmation,
    /// The record of its confirmation, if it was not the confirmed block before.
    pub confirmation: Option<ConfirmationRecord>,
    /// The blocks that were given up, if the safe head moved to a block that does not come after
    /// the old one.
    pub reorg_distance: Option<u64>,
}

/// What a new head changed.
#[derive(Debug, Clone, Copy, PartialEq, Eq, Structural)]
pub struct HeadUpdate {
    /// The confirmed block that the search from the head ended at.
    pub confirmed_ancestor: Option<Hash256>,
    /// The record of its confirmation, if the search confirmed it.
    pub confirmation: Option<ConfirmationRecord>,
    /// The blocks that were given up, if the safe head moved to a block that does not come after
    /// the old one.
    pub reorg_distance: Option<u64>,
}

/// The class of a delay.
pub open spec fn bucket_of(delay_slots: u64) -> DelayBucket {
    if delay_slots == 0 {
        DelayBucket::Zero
    } else if delay_slots == 1 {
        DelayBucket::One
    } else if delay_slots == 2 {
        DelayBucket::Two
    } else {
        DelayBucket::ThreeOrMore
    }
}

/// The tail case that a delay makes, if any.
pub open spec fn tail_case_of(
    delay_slots: u64,
    current_slot: Slot,
    slots_per_epoch: u64,
) -> Option<TailCase> {
    if delay_slots < 2 {
        None
    } else {
        Some(
            TailCase {
                epoch_boundary: is_epoch_start(current_slot, slots_per_epoch),
                delay_bucket: if delay_slots == 2 {
                    TailBucket::Two
                } else if delay_slots == 3 {
                    TailBucket::Three
                } else {
                    TailBucket::FourOrMore
                },
            },
        )
    }
}

/// The delay of a confirmation in `current_slot`.
pub open spec fn delay_of(
    delay_slots: u64,
    current_slot: Slot,
    slots_per_epoch: u64,
) -> ConfirmationDelay {
    ConfirmationDelay {
        slots: delay_slots,
        bucket: bucket_of(delay_slots),
        tail_case: tail_case_of(delay_slots, current_slot, slots_per_epoch),
    }
}

/// The record of a confirmation in `current_slot`.
pub open spec fn record_of(
    delay_slots: Option<u64>,
    current_slot: Slot,
    head_slot: Slot,
    block_slot: Option<Slot>,
    slots_per_epoch: u64,
) -> ConfirmationRecord {
    ConfirmationRecord {
        delay: match delay_slots {
            Some(slots) => Some(delay_of(slots, current_slot, slots_per_epoch)),
            None => None,
        },
        head_gap_slots: match block_slot {
            Some(slot) => Some(sat_sub(head_slot.0, slot.0)),
            None => None,
        },
    }
}

impl DelayBucket {
    /// The label under which the class is counted.
    pub open spec fn spec_label(self) -> Seq<char> {
        match self {
            DelayBucket::Zero => "0"@,
            DelayBucket::One => "1"@,
            DelayBucket::Two => "2"@,
            DelayBucket::ThreeOrMore => "ge3"@,
        }
    }

    /// The label under which the class is counted.
    pub fn label(&self) -> (r: &'static str)
        ensures
            r@ == self.spec_label(),
    {
        match self {
            DelayBucket::Zero => "0",
            DelayBucket::One => "1",
            DelayBucket::Two => "2",
            DelayBucket::ThreeOrMore => "ge3",
        }
    }
}

impl ConfirmationDelay {
    /// The slots that count as time spent; a confirmation in the block's own slot does not count.
    pub fn timed_slots(&self) -> (r: Option<u64>)
        ensures
            r == (if self.slots > 0 {
                Some(self.slots)
            } else {
                None
            }),
    {
        if self.slots > 0 {
            Some(self.slots)
        } else {
            None
        }
    }
}

impl TailCase {
    /// The labels under which the case is counted: the epoch boundary, and the delay.
    pub open spec fn spec_labels(self) -> (Seq<char>, Seq<char>) {
        (
            if self.epoch_boundary {
                "true"@
            } else {
                "false"@
            },
            match self.delay_bucket {
                TailBucket::Two => "2"@,
                TailBucket::Three => "3"@,
                TailBucket::FourOrMore => "ge4"@,
            },
        )
    }

    /// The labels under which the case is counted: the epoch boundary, and the delay.
    pub fn labels(&self) -> (r: (&'static str, &'static str))
        ensures
            (r.0@, r.1@) == self.spec_labels(),
    {
        (
            if self.epoch_boundary {
                "true"
            } else {
                "false"
            },
            match self.delay_bucket {
                TailBucket::Two => "2",
                TailBucket::Three => "3",
                TailBucket::FourOrMore => "ge4",
            },
        )
    }
}

impl Restart {
    /// The label under which the restart is counted.
    pub open spec fn spec_label(self) -> Seq<char> {
        match self {
            Restart::Reorg(_) => "reorg"@,
            Restart::Stale => "stale"@,
        }
    }

    /// The label under which the restart is counted.
    pub fn label(&self) -> (r: &'static str)
        ensures
            r@ == self.spec_label(),
    {
        match self {
            Restart::Reorg(_) => "reorg",
            Restart::Stale => "stale",
        }
    }
}

/// The record of a confirmation in `current_slot`.
pub fn confirmation_record(
    delay_slots: Option<u64>,
    current_slot: Slot,
    head_slot: Slot,
    block_slot: Option<Slot>,
    slots_per_epoch: u64,
) -> (r: ConfirmationRecord)
    requires
        slots_per_epoch > 0,
    ensures
        r == record_of(delay_slots, current_slot, head_slot, block_slot, slots_per_epoch),
{
    let delay = match delay_slots {
        Some(slots) => {
            let bucket = if slots == 0 {
                DelayBucket::Zero
            } else if slots == 1 {
                DelayBucket::One
            } else if slots == 2 {
                DelayBucket::Two
            } else {
                DelayBucket::ThreeOrMore
            };
            let tail_case = if slots < 2 {
                None
            } else {
                let delay_bucket = if slots == 2 {
                    TailBucket::Two
                } else if slots == 3 {
                    TailBucket::Three
                } else {
                    TailBucket::FourOrMore
                };
                Some(
                    TailCase {
                        epoch_boundary: current_slot.is_epoch_start(slots_per_epoch),
                        delay_bucket,
                    },
                )
            };
            Some(ConfirmationDelay { slots, bucket, tail_case })
        },
        None => None,
    };
    let head_gap_slots = match block_slot {
        Some(slot) => Some(head_slot.0.saturating_sub(slot.0)),
        None => None,
    };
    ConfirmationRecord { delay, head_gap_slots }
}

/// The head that the rule has confirmed, as far as the fork choice can find it.
#[derive(Debug, Clone, Copy, PartialEq, Eq, Structural)]
pub enum ConfirmedHead {
    /// There is no such head.
    Missing,
    /// There is one, but the fork choice does not know its block.
    Unknown,
    /// There is one, with a block in this slot.
    At(Slot),
}

/// The gauges of the fork choice. A gauge that holds nothing keeps its last value.
#[derive(Debug, Clone, Copy, PartialEq, Eq, Structural)]
pub struct Gauges {
    /// The attestations that wait for their slot.
    pub queued_attestations: i64,
    /// The nodes of the block array.
    pub nodes: i64,
    /// The indices of the block array.
    pub indices: i64,
    /// The slot of the safe head.
    pub safe_head_slot: Option<i64>,
    /// How many blocks are remembered.
    pub metadata_cache_size: Option<i64>,
    /// The byzantine threshold, in percent.
    pub byzantine_threshold_percentage: Option<i64>,
}

/// The gauge for the slot of the safe head.
pub open spec fn safe_head_gauge(head: ConfirmedHead) -> Option<i64> {
    match head {
        ConfirmedHead::Missing => Some(0),
        ConfirmedHead::Unknown => None,
        ConfirmedHead::At(slot) => Some(slot.0 as i64),
    }
}

/// What the gauges show. Where fast confirmation is disabled, its gauges show zero.
pub fn scrape_for_metrics<S: StateProvider>(
    queued_attestations: usize,
    nodes: usize,
    indices: usize,
    is_fast_confirmation_enabled: bool,
    fast_confirmation: Option<&FastConfirmation<S>>,
    fast_confirmed_head: ConfirmedHead,
) -> (r: Gauges)
    requires
        fast_confirmation matches Some(fcr) ==> fcr.wf(),
    ensures
        r.queued_attestations == queued_attestations as i64,
        r.nodes == nodes as i64,
        r.indices == indices as i64,
        if !is_fast_confirmation_enabled {
            &&& r.safe_head_slot == Some(0i64)
            &&& r.metadata_cache_size == Some(0i64)
            &&& r.byzantine_threshold_percentage == Some(0i64)
        } else {
            match fast_confirmation {
                Some(fcr) => {
                    &&& r.safe_head_slot == safe_head_gauge(fast_confirmed_head)
                    &&& r.metadata_cache_size == Some((fcr@.meta.len() as usize) as i64)
                    &&& r.byzantine_threshold_percentage == Some(
                        fcr@.rule.config.beta_percentage as i64,
                    )
                },
                None => {
                    &&& r.safe_head_slot is None
                    &&& r.metadata_cache_size is None
                    &&& r.byzantine_threshold_percentage is None
                },
            }
        },
{
    let mut gauges = Gauges {
        queued_attestations: queued_attestations as i64,
        nodes: nodes as i64,
        indices: indices as i64,
        safe_head_slot: None,
        metadata_cache_size: None,
        byzantine_threshold_percentage: None,
    };
    if is_fast_confirmation_enabled {
        if let Some(fcr) = fast_confirmation {
            gauges.safe_head_slot = match fast_confirmed_head {
                ConfirmedHead::Missing => Some(0),
                ConfirmedHead::Unknown => None,
                ConfirmedHead::At(slot) => Some(slot.as_u64() as i64),
            };
            gauges.metadata_cache_size = Some(fcr.metadata_cache_size() as i64);
            gauges.byzantine_threshold_percentage = Some(fcr.beta_percentage() as i64);
        }
    } else {
        gauges.safe_head_slot = Some(0);
        gauges.metadata_cache_size = Some(0);
        gauges.byzantine_threshold_percentage = Some(0);
    }
    gauges
}

} // verus!
