//! What an instance of the rule remembers of slots and blocks, and how slots, heads and prunings
//! change it.

use crate::committee_weight::cap;
use crate::error::Error;
use crate::fork_choice_store::ForkChoiceStore;
use crate::metrics::{record_of, ConfirmationRecord, HeadUpdate, SlotUpdate};
use crate::proto_array::ProtoArrayView;
use crate::rule::{is_ancestor, slot_or, FcrStore, Rule};
use crate::state_provider::StateProvider;
use crate::types::{Hash256, Slot};
use vstd::prelude::*;

verus! {

/// How many blocks a search from a new head goes through at most.
pub const MAX_REORG_DEPTH: usize = 32;

/// What is remembered of a block.
#[derive(Debug, Clone, Copy, PartialEq, Eq, Structural)]
pub struct FcrMeta {
    /// Room for the attesting balance behind the block. It is not filled and stays zero: the rule
    /// takes the balance from the tree whenever it checks the block.
    pub support: u64,
    /// Room for the balance that could have attested. It is not filled and stays zero: the rule
    /// works the balance out whenever it checks the block.
    pub committee_weight: u64,
    /// Whether the block is confirmed.
    pub confirmed: bool,
    /// The slot in which the block was created.
    pub block_creation_slot: Slot,
    /// The slot in which the block was confirmed.
    pub confirmation_slot: Option<Slot>,
}

/// What is remembered of a block that was just seen for the first time.
pub open spec fn unconfirmed(block_slot: Slot) -> FcrMeta {
    FcrMeta {
        support: 0,
        committee_weight: 0,
        confirmed: false,
        block_creation_slot: block_slot,
        confirmation_slot: None,
    }
}

impl Default for FcrMeta {
    fn default() -> (r: FcrMeta)
        ensures
            r == unconfirmed(Slot(0)),
    {
        FcrMeta {
            support: 0,
            committee_weight: 0,
            confirmed: false,
            block_creation_slot: Slot::new(0),
            confirmation_slot: None,
        }
    }
}

/// What an instance of the rule holds.
#[verifier::ext_equal]
pub struct FastConfirmationView<S> {
    /// The thresholds, the memory and the state provider.
    pub rule: Rule<S>,
    /// What is remembered of each block.
    pub meta: Map<Hash256, FcrMeta>,
}

/// What is remembered of the blocks once one of them has been seen.
pub open spec fn tracked_meta(
    meta: Map<Hash256, FcrMeta>,
    root: Hash256,
    slot: Slot,
) -> Map<Hash256, FcrMeta> {
    if meta.contains_key(root) {
        meta
    } else {
        meta.insert(root, unconfirmed(slot))
    }
}

/// What is remembered of the blocks once one of them has been seen, if the tree knows it.
pub open spec fn track_known(
    meta: Map<Hash256, FcrMeta>,
    tree: ProtoArrayView,
    root: Hash256,
) -> Map<Hash256, FcrMeta> {
    if tree.known(root) {
        tracked_meta(meta, root, tree.slot(root))
    } else {
        meta
    }
}

/// What is remembered of the blocks once the first `n` of a line have been seen.
pub open spec fn track_line(
    meta: Map<Hash256, FcrMeta>,
    tree: ProtoArrayView,
    line: Seq<Hash256>,
    n: int,
) -> Map<Hash256, FcrMeta>
    decreases n,
{
    if n <= 0 {
        meta
    } else {
        track_known(track_line(meta, tree, line, n - 1), tree, line[n - 1])
    }
}

/// What is remembered of a block once it is confirmed in `current_slot`.
pub open spec fn confirmed_in(seen: FcrMeta, current_slot: Slot) -> FcrMeta {
    FcrMeta { confirmed: true, confirmation_slot: Some(current_slot), ..seen }
}

/// Whether `other` inherits the confirmation of `root`: it is remembered, not confirmed yet, and
/// comes after `root`.
pub open spec fn inherits(
    meta: Map<Hash256, FcrMeta>,
    tree: ProtoArrayView,
    root: Hash256,
    other: Hash256,
) -> bool {
    meta.contains_key(other) && !meta[other].confirmed && tree.is_descendant(root, other)
}

/// What is remembered of the blocks once one of them is confirmed, and with it those after it.
pub open spec fn marked_meta(
    meta: Map<Hash256, FcrMeta>,
    tree: ProtoArrayView,
    root: Hash256,
    current_slot: Slot,
) -> Map<Hash256, FcrMeta> {
    Map::new(
        |other: Hash256| other == root || meta.contains_key(other),
        |other: Hash256|
            if other == root {
                confirmed_in(
                    if meta.contains_key(root) {
                        meta[root]
                    } else {
                        unconfirmed(slot_or(tree, root, current_slot))
                    },
                    current_slot,
                )
            } else if inherits(meta, tree, root, other) {
                confirmed_in(meta[other], current_slot)
            } else {
                meta[other]
            },
    )
}

/// The slots from a block's creation to its confirmation in `current_slot`. A block that was not
/// seen before counts as confirmed at once.
pub open spec fn confirmation_delay(
    meta: Map<Hash256, FcrMeta>,
    root: Hash256,
    current_slot: Slot,
) -> Option<u64> {
    if !meta.contains_key(root) {
        Some(0)
    } else if meta[root].block_creation_slot.0 <= current_slot.0 {
        Some((current_slot.0 - meta[root].block_creation_slot.0) as u64)
    } else {
        None
    }
}

/// What is recorded when a block is confirmed.
pub open spec fn marked_record(
    meta: Map<Hash256, FcrMeta>,
    tree: ProtoArrayView,
    root: Hash256,
    current_slot: Slot,
    head_slot: Slot,
    slots_per_epoch: u64,
) -> ConfirmationRecord {
    record_of(
        confirmation_delay(meta, root, current_slot),
        current_slot,
        head_slot,
        if tree.known(root) {
            Some(tree.slot(root))
        } else {
            None
        },
        slots_per_epoch,
    )
}

/// How many blocks at the start of a line are not ancestors of `root`, or `root` itself.
pub open spec fn unshared(tree: ProtoArrayView, line: Seq<Hash256>, root: Hash256) -> nat
    decreases line.len(),
{
    if line.len() == 0 || is_ancestor(tree, root, line[0]) {
        0
    } else {
        1 + unshared(tree, line.skip(1), root)
    }
}

/// The blocks that are given up when the safe head moves to a block that does not come after the
/// old one: those up to the last block that both have before them. Nothing if there was no safe
/// head, or if the safe head stays or moves on.
pub open spec fn safe_head_reorg(
    tree: ProtoArrayView,
    old_safe_head: Hash256,
    new_safe_head: Hash256,
) -> Option<u64> {
    if old_safe_head != Hash256::spec_zero() && new_safe_head != old_safe_head && !is_ancestor(
        tree,
        new_safe_head,
        old_safe_head,
    ) {
        Some(cap(unshared(tree, tree.lineage(old_safe_head), new_safe_head) as int) as u64)
    } else {
        None
    }
}

/// Seeing the blocks of a line changes nothing for those that were seen before, and confirms none.
pub proof fn lemma_track_line(
    meta: Map<Hash256, FcrMeta>,
    tree: ProtoArrayView,
    line: Seq<Hash256>,
    n: int,
    root: Hash256,
)
    ensures
        meta.contains_key(root) ==> track_line(meta, tree, line, n).contains_key(root)
            && track_line(meta, tree, line, n)[root] == meta[root],
        !meta.contains_key(root) && track_line(meta, tree, line, n).contains_key(root)
            ==> !track_line(meta, tree, line, n)[root].confirmed,
    decreases n,
{
    if n > 0 {
        lemma_track_line(meta, tree, line, n - 1, root);
    }
}

impl<S: StateProvider> FastConfirmationView<S> {
    /// Whether a block is marked as confirmed.
    pub open spec fn is_confirmed(self, root: Hash256) -> bool {
        self.meta.contains_key(root) && self.meta[root].confirmed
    }

    /// The same instance with other memories of blocks.
    pub open spec fn with_meta(self, meta: Map<Hash256, FcrMeta>) -> FastConfirmationView<S> {
        FastConfirmationView { meta, ..self }
    }

    /// The same instance with another memory of slots.
    pub open spec fn with_store(self, store: FcrStore) -> FastConfirmationView<S> {
        FastConfirmationView { rule: Rule { store, ..self.rule }, ..self }
    }

    /// The same instance with another safe head.
    pub open spec fn with_safe_head(self, root: Hash256) -> FastConfirmationView<S> {
        self.with_store(FcrStore { safe_head_root: root, ..self.rule.store })
    }

    /// What the instance remembers once a slot is over in which `latest` came out as the latest
    /// confirmed block.
    pub open spec fn next_store(
        self,
        fc: ForkChoiceStore,
        head: Hash256,
        latest: Hash256,
    ) -> FcrStore {
        FcrStore {
            confirmed_root: latest,
            safe_head_root: latest,
            prev_slot_justified_checkpoint: fc.justified_checkpoint,
            prev_slot_unrealized_justified_checkpoint: fc.unrealized_justified_checkpoint,
            prev_slot_head: head,
            prev_epoch_unrealized_justified_checkpoint: if self.rule.at_epoch_start(fc) {
                fc.unrealized_justified_checkpoint
            } else {
                self.rule.store.prev_epoch_unrealized_justified_checkpoint
            },
        }
    }

    /// Whether a new slot with this head can turn the instance into `after` and be answered by
    /// `update`.
    pub open spec fn slot_updated(
        self,
        tree: ProtoArrayView,
        fc: ForkChoiceStore,
        head: Hash256,
        after: FastConfirmationView<S>,
        update: SlotUpdate,
    ) -> bool {
        let latest = update.latest.root;
        let seen = track_known(self.meta, tree, latest);
        &&& update.epoch_boundary == self.rule.at_epoch_start(fc)
        &&& self.rule.assessed(tree, fc, head, update.latest)
        &&& update.reorg_distance == safe_head_reorg(tree, self.rule.store.safe_head_root, latest)
        &&& if latest == self.rule.store.confirmed_root {
            &&& update.confirmation is None
            &&& after == self.with_store(self.next_store(fc, head, latest))
        } else {
            &&& update.confirmation == Some(
                marked_record(
                    seen,
                    tree,
                    latest,
                    fc.current_slot,
                    slot_or(tree, head, fc.current_slot),
                    self.rule.slots_per_epoch,
                ),
            )
            &&& after == self.with_store(self.next_store(fc, head, latest)).with_meta(
                marked_meta(seen, tree, latest, fc.current_slot),
            )
        }
    }

    /// Whether the safe head is the head or comes before it, so that no search is needed.
    pub open spec fn keeps_safe_head(self, tree: ProtoArrayView, head: Hash256) -> bool {
        self.rule.store.safe_head_root != Hash256::spec_zero() && is_ancestor(
            tree,
            head,
            self.rule.store.safe_head_root,
        )
    }

    /// The first `n` blocks of a line are not confirmed, and do not have the votes for it either.
    pub open spec fn scanned_past(
        self,
        tree: ProtoArrayView,
        fc: ForkChoiceStore,
        line: Seq<Hash256>,
        n: int,
    ) -> bool {
        forall|j: int|
            0 <= j < n ==> !self.is_confirmed(#[trigger] line[j]) && self.rule.one_confirmed(
                tree,
                fc,
                line[j],
                Ok(false),
            )
    }

    /// Whether the search from `head` can end at block `n` of its lineage, leave `after`, and be
    /// answered by `outcome`.
    pub open spec fn scan_stop(
        self,
        tree: ProtoArrayView,
        fc: ForkChoiceStore,
        head: Hash256,
        n: int,
        after: FastConfirmationView<S>,
        outcome: Result<HeadUpdate, Error>,
    ) -> bool {
        let line = tree.lineage(head);
        let root = line[n];
        let seen = track_line(self.meta, tree, line, n + 1);
        &&& 0 <= n < line.len()
        &&& n < MAX_REORG_DEPTH
        &&& self.scanned_past(tree, fc, line, n)
        &&& if self.is_confirmed(root) {
            &&& after == self.with_meta(seen).with_safe_head(root)
            &&& outcome == Ok::<HeadUpdate, Error>(
                HeadUpdate {
                    confirmed_ancestor: Some(root),
                    confirmation: None,
                    reorg_distance: safe_head_reorg(tree, self.rule.store.safe_head_root, root),
                },
            )
        } else {
            ||| {
                &&& self.rule.one_confirmed(tree, fc, root, Ok(true))
                &&& after == self.with_meta(
                    marked_meta(seen, tree, root, fc.current_slot),
                ).with_safe_head(root)
                &&& outcome == Ok::<HeadUpdate, Error>(
                    HeadUpdate {
                        confirmed_ancestor: Some(root),
                        confirmation: Some(
                            marked_record(
                                seen,
                                tree,
                                root,
                                fc.current_slot,
                                slot_or(tree, head, fc.current_slot),
                                self.rule.slots_per_epoch,
                            ),
                        ),
                        reorg_distance: safe_head_reorg(tree, self.rule.store.safe_head_root, root),
                    },
                )
            }
            ||| {
                &&& outcome is Err
                &&& self.rule.one_confirmed(tree, fc, root, Err(outcome->Err_0))
                &&& after == self.with_meta(seen)
            }
            ||| {
                &&& n + 1 == line.len() || n + 1 == MAX_REORG_DEPTH
                &&& self.rule.one_confirmed(tree, fc, root, Ok(false))
                &&& after == self.with_meta(seen)
                &&& outcome == Ok::<HeadUpdate, Error>(
                    HeadUpdate {
                        confirmed_ancestor: None,
                        confirmation: None,
                        reorg_distance: None,
                    },
                )
            }
        }
    }

    /// Whether a new head can turn the instance into `after` and be answered by `outcome`.
    pub open spec fn head_updated(
        self,
        tree: ProtoArrayView,
        fc: ForkChoiceStore,
        head: Hash256,
        after: FastConfirmationView<S>,
        outcome: Result<HeadUpdate, Error>,
    ) -> bool {
        if self.keeps_safe_head(tree, head) {
            &&& after == self.with_meta(track_known(self.meta, tree, head))
            &&& outcome == Ok::<HeadUpdate, Error>(
                HeadUpdate { confirmed_ancestor: None, confirmation: None, reorg_distance: None },
            )
        } else {
            exists|n: int| self.scan_stop(tree, fc, head, n, after, outcome)
        }
    }
}

/// Whether a block's memory outlives a pruning at `finalized`: the tree knows the block, in no
/// earlier a slot.
pub open spec fn outlives(tree: ProtoArrayView, finalized: Hash256, root: Hash256) -> bool {
    tree.known(root) && tree.slot(root).0 >= tree.slot(finalized).0
}

/// What is remembered of the blocks after a pruning at `finalized`.
pub open spec fn pruned_meta(
    meta: Map<Hash256, FcrMeta>,
    tree: ProtoArrayView,
    finalized: Hash256,
) -> Map<Hash256, FcrMeta> {
    meta.restrict(Set::new(|root: Hash256| outlives(tree, finalized, root)))
}

} // verus!
