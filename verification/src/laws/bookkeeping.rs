//! What the rule writes down with each slot and each head, block by block, and what it reports.

use crate::config::{config_outcome, FastConfirmationConfig};
use crate::error::Error;
use crate::fork_choice_store::ForkChoiceStore;
use crate::laws::memory::law_reorgs_give_up_unshared_blocks;
use crate::memory::{
    marked_meta, marked_record, safe_head_reorg, track_line, tracked_meta, FastConfirmationView,
    FcrMeta,
};
use crate::metrics::{
    delay_of, safe_head_gauge, ConfirmationRecord, ConfirmedHead, HeadUpdate, SlotUpdate,
};
use crate::proto_array::ProtoArrayView;
use crate::rule::{initial_store, is_ancestor, slot_or_zero};
use crate::state_provider::StateProvider;
use crate::types::{Checkpoint, Epoch, Hash256, Slot};
use vstd::prelude::*;

verus! {

/// The root whose bytes are all zero stands for no block.
pub open spec fn no_block() -> Hash256 {
    Hash256 { hi: 0, lo: 0 }
}

/// Before its first slot, the rule has no block and no checkpoint to go by.
pub proof fn law_rule_begins_with_nothing()
    ensures
        initial_store().confirmed_root == no_block(),
        initial_store().safe_head_root == no_block(),
        initial_store().prev_slot_head == no_block(),
        ({
            let nothing = Checkpoint { epoch: Epoch(0), root: no_block() };
            &&& initial_store().prev_slot_justified_checkpoint == nothing
            &&& initial_store().prev_slot_unrealized_justified_checkpoint == nothing
            &&& initial_store().prev_epoch_unrealized_justified_checkpoint == nothing
        }),
{
}

/// Thresholds make a configuration exactly if the byzantine one is below one half and the slashing
/// one is no more than all; the configuration holds them as they are.
pub proof fn law_thresholds_are_limited(
    beta_percentage: u64,
    slashing_percentage: u64,
    outcome: Result<FastConfirmationConfig, String>,
)
    requires
        config_outcome(beta_percentage, slashing_percentage, outcome),
    ensures
        outcome is Ok <==> 2 * beta_percentage < 100 && slashing_percentage <= 100,
        outcome matches Ok(config) ==> config.beta_percentage == beta_percentage
            && config.slashing_percentage == slashing_percentage,
{
}

/// A change of what is remembered of the blocks leaves the rest of the rule alone, and a change of
/// the safe head leaves everything else alone.
pub proof fn law_changes_stay_apart<S: StateProvider>(
    view: FastConfirmationView<S>,
    meta: Map<Hash256, FcrMeta>,
    root: Hash256,
)
    ensures
        view.with_meta(meta).rule == view.rule,
        view.with_meta(meta).meta == meta,
        view.with_safe_head(root).meta == view.meta,
        view.with_safe_head(root).rule.store.safe_head_root == root,
        view.with_safe_head(root).with_safe_head(view.rule.store.safe_head_root) == view,
{
}

/// Once a slot is over, the rule holds the block that came out, as the confirmed one and as the
/// safe head, and the head and the checkpoints of that slot. The unrealized justified checkpoint
/// of an epoch's first slot is the one that weights are taken from, until the next epoch.
pub proof fn law_slots_are_remembered<S: StateProvider>(
    before: FastConfirmationView<S>,
    tree: ProtoArrayView,
    fc: ForkChoiceStore,
    head: Hash256,
    after: FastConfirmationView<S>,
    update: SlotUpdate,
)
    requires
        before.slot_updated(tree, fc, head, after, update),
    ensures
        update.epoch_boundary <==> fc.current_slot.0 % before.rule.slots_per_epoch == 0,
        before.rule.assessed(tree, fc, head, update.latest),
        ({
            let store = after.rule.store;
            &&& store.confirmed_root == update.latest.root
            &&& store.safe_head_root == update.latest.root
            &&& store.prev_slot_head == head
            &&& store.prev_slot_justified_checkpoint == fc.justified_checkpoint
            &&& store.prev_slot_unrealized_justified_checkpoint
                == fc.unrealized_justified_checkpoint
            &&& fc.current_slot.0 % before.rule.slots_per_epoch == 0
                ==> store.prev_epoch_unrealized_justified_checkpoint
                == fc.unrealized_justified_checkpoint
            &&& fc.current_slot.0 % before.rule.slots_per_epoch != 0
                ==> store.prev_epoch_unrealized_justified_checkpoint
                == before.rule.store.prev_epoch_unrealized_justified_checkpoint
        }),
{
}

/// A slot in which the confirmed block stays changes nothing of what is remembered of blocks. A
/// slot in which another one comes out confirms that one, and the remembered blocks after it that
/// were not confirmed before; it adds and changes no other block.
pub proof fn law_slots_mark_the_latest_block<S: StateProvider>(
    before: FastConfirmationView<S>,
    tree: ProtoArrayView,
    fc: ForkChoiceStore,
    head: Hash256,
    after: FastConfirmationView<S>,
    update: SlotUpdate,
    block: Hash256,
)
    requires
        before.slot_updated(tree, fc, head, after, update),
    ensures
        update.confirmation is Some <==> update.latest.root != before.rule.store.confirmed_root,
        update.latest.root == before.rule.store.confirmed_root ==> after.meta == before.meta,
        update.latest.root != before.rule.store.confirmed_root ==> {
            let latest = update.latest.root;
            &&& after.meta.contains_key(block) <==> block == latest || before.meta.contains_key(
                block,
            )
            &&& block == latest ==> after.meta[block].confirmed
                && after.meta[block].confirmation_slot == Some(fc.current_slot)
            &&& block == latest && !before.meta.contains_key(block) ==> {
                &&& after.meta[block].support == 0
                &&& after.meta[block].committee_weight == 0
                &&& after.meta[block].block_creation_slot == if tree.nodes.contains_key(block) {
                    tree.nodes[block].block.slot
                } else {
                    fc.current_slot
                }
            }
            &&& before.meta.contains_key(block) ==> after.meta[block].block_creation_slot
                == before.meta[block].block_creation_slot && after.meta[block].support
                == before.meta[block].support && after.meta[block].committee_weight
                == before.meta[block].committee_weight
            &&& block != latest && before.meta.contains_key(block) ==> {
                let inherits = !before.meta[block].confirmed && tree.is_descendant(latest, block);
                &&& inherits ==> after.meta[block].confirmed
                    && after.meta[block].confirmation_slot == Some(fc.current_slot)
                &&& !inherits ==> after.meta[block] == before.meta[block]
            }
        },
{
}

/// The record of a confirmation in a slot: how long it took since the block was first seen, or
/// since its own slot, and how far it lies behind the head.
pub proof fn law_slots_record_the_confirmation<S: StateProvider>(
    before: FastConfirmationView<S>,
    tree: ProtoArrayView,
    fc: ForkChoiceStore,
    head: Hash256,
    after: FastConfirmationView<S>,
    update: SlotUpdate,
    record: ConfirmationRecord,
    created: Slot,
    head_slot: Slot,
)
    requires
        before.slot_updated(tree, fc, head, after, update),
        update.confirmation == Some(record),
        tree.nodes.contains_key(update.latest.root),
        before.meta.contains_key(update.latest.root) ==> created
            == before.meta[update.latest.root].block_creation_slot,
        !before.meta.contains_key(update.latest.root) ==> created
            == tree.nodes[update.latest.root].block.slot,
        tree.nodes.contains_key(head) ==> head_slot == tree.nodes[head].block.slot,
        !tree.nodes.contains_key(head) ==> head_slot == fc.current_slot,
    ensures
        record.delay is Some <==> created.0 <= fc.current_slot.0,
        record.delay matches Some(delay) ==> created.0 + delay.slots == fc.current_slot.0,
        record.head_gap_slots is Some,
        ({
            let block_slot = tree.nodes[update.latest.root].block.slot;
            if block_slot.0 <= head_slot.0 {
                block_slot.0 + record.head_gap_slots->0 == head_slot.0
            } else {
                record.head_gap_slots->0 == 0
            }
        }),
{
}

/// The record of a block that is marked as confirmed: how long it took since the block was seen,
/// nothing if it was not seen before, and how far it lies behind the given head slot.
pub proof fn law_marking_is_recorded(
    meta: Map<Hash256, FcrMeta>,
    tree: ProtoArrayView,
    root: Hash256,
    current_slot: Slot,
    head_slot: Slot,
    slots_per_epoch: u64,
)
    ensures
        ({
            let record = marked_record(meta, tree, root, current_slot, head_slot, slots_per_epoch);
            let created = meta[root].block_creation_slot;
            &&& !meta.contains_key(root) ==> record.delay is Some && record.delay->0.slots == 0
            &&& meta.contains_key(root) ==> (record.delay is Some <==> created.0 <= current_slot.0)
            &&& meta.contains_key(root) && record.delay is Some ==> created.0
                + record.delay->0.slots == current_slot.0
            &&& record.delay matches Some(delay) ==> delay == delay_of(
                delay.slots,
                current_slot,
                slots_per_epoch,
            )
            &&& record.head_gap_slots is Some <==> tree.nodes.contains_key(root)
            &&& record.head_gap_slots matches Some(gap) ==> if tree.nodes[root].block.slot.0
                <= head_slot.0 {
                tree.nodes[root].block.slot.0 + gap == head_slot.0
            } else {
                gap == 0
            }
        }),
{
}

/// Marking a block as confirmed, block by block: the marked one and the remembered ones after it
/// are confirmed then, those of them that were not before in the current slot. Nothing else of
/// what is remembered changes.
pub proof fn law_marking_block_by_block(
    meta: Map<Hash256, FcrMeta>,
    tree: ProtoArrayView,
    root: Hash256,
    current_slot: Slot,
    block: Hash256,
)
    ensures
        ({
            let after = marked_meta(meta, tree, root, current_slot);
            &&& after.contains_key(block) <==> block == root || meta.contains_key(block)
            &&& meta.contains_key(block) ==> {
                let inherits = block == root || (!meta[block].confirmed && tree.is_descendant(
                    root,
                    block,
                ));
                &&& inherits ==> after[block] == (FcrMeta {
                    confirmed: true,
                    confirmation_slot: Some(current_slot),
                    support: meta[block].support,
                    committee_weight: meta[block].committee_weight,
                    block_creation_slot: meta[block].block_creation_slot,
                })
                &&& !inherits ==> after[block] == meta[block]
            }
            &&& block == root && !meta.contains_key(block) ==> after[block] == (FcrMeta {
                confirmed: true,
                confirmation_slot: Some(current_slot),
                support: 0,
                committee_weight: 0,
                block_creation_slot: if tree.nodes.contains_key(root) {
                    tree.nodes[root].block.slot
                } else {
                    current_slot
                },
            })
        }),
{
}

/// A block that is seen for the first time is remembered with its slot, and is not confirmed.
pub proof fn law_seen_blocks_are_written_down(
    meta: Map<Hash256, FcrMeta>,
    root: Hash256,
    slot: Slot,
)
    ensures
        tracked_meta(meta, root, slot).contains_key(root),
        !meta.contains_key(root) ==> tracked_meta(meta, root, slot)[root] == (FcrMeta {
            support: 0,
            committee_weight: 0,
            confirmed: false,
            block_creation_slot: slot,
            confirmation_slot: None,
        }),
{
}

/// Which blocks are remembered once the first `n` of a line have been seen.
proof fn lemma_seen_line(
    meta: Map<Hash256, FcrMeta>,
    tree: ProtoArrayView,
    line: Seq<Hash256>,
    n: int,
    block: Hash256,
)
    requires
        0 <= n <= line.len(),
    ensures
        ({
            let seen = track_line(meta, tree, line, n);
            &&& seen.contains_key(block) <==> meta.contains_key(block) || (
            tree.nodes.contains_key(block) && exists|k: int|
                0 <= k < n && #[trigger] line[k] == block)
            &&& meta.contains_key(block) ==> seen[block] == meta[block]
            &&& !meta.contains_key(block) && seen.contains_key(block) ==> !seen[block].confirmed
                && seen[block].block_creation_slot == tree.nodes[block].block.slot
                && seen[block].confirmation_slot is None
        }),
    decreases n,
{
    if n > 0 {
        lemma_seen_line(meta, tree, line, n - 1, block);
        if line[n - 1] == block {
            assert(0 <= n - 1 < n && line[n - 1] == block);
        }
    }
}

/// A safe head that the head comes after stays, and the search is spared: the head is taken note
/// of, and nothing else happens.
pub proof fn law_heads_after_the_safe_head_change_nothing<S: StateProvider>(
    before: FastConfirmationView<S>,
    tree: ProtoArrayView,
    fc: ForkChoiceStore,
    head: Hash256,
    after: FastConfirmationView<S>,
    outcome: Result<HeadUpdate, Error>,
    block: Hash256,
)
    requires
        before.head_updated(tree, fc, head, after, outcome),
        before.rule.store.safe_head_root != no_block(),
        is_ancestor(tree, head, before.rule.store.safe_head_root),
    ensures
        outcome == Ok::<HeadUpdate, Error>(
            HeadUpdate { confirmed_ancestor: None, confirmation: None, reorg_distance: None },
        ),
        after.rule == before.rule,
        after.meta.contains_key(block) <==> before.meta.contains_key(block) || (block == head
            && tree.nodes.contains_key(head)),
        before.meta.contains_key(block) ==> after.meta[block] == before.meta[block],
        !before.meta.contains_key(block) && after.meta.contains_key(block)
            ==> !after.meta[block].confirmed && after.meta[block].block_creation_slot
            == tree.nodes[head].block.slot,
{
}

/// Whether the search from a head passes over a block: the block is not marked as confirmed, and
/// does not have the votes for it.
pub open spec fn passed_over<S: StateProvider>(
    before: FastConfirmationView<S>,
    tree: ProtoArrayView,
    fc: ForkChoiceStore,
    block: Hash256,
) -> bool {
    &&& !(before.meta.contains_key(block) && before.meta[block].confirmed)
    &&& before.rule.one_confirmed(tree, fc, block, Ok(false))
}

/// Whether the search from a head ends at block `n` of the head's lineage: it passed over those
/// before, and no more blocks were seen than those up to that one.
pub open spec fn searched_up_to<S: StateProvider>(
    before: FastConfirmationView<S>,
    tree: ProtoArrayView,
    fc: ForkChoiceStore,
    head: Hash256,
    after: FastConfirmationView<S>,
    n: int,
) -> bool {
    let line = tree.lineage(head);
    &&& 0 <= n < 32
    &&& n < line.len()
    &&& forall|j: int| 0 <= j < n ==> passed_over(before, tree, fc, #[trigger] line[j])
    &&& forall|block: Hash256|
        {
            &&& before.meta.contains_key(block) ==> #[trigger] after.meta.contains_key(block)
                && after.meta[block].block_creation_slot == before.meta[block].block_creation_slot
            &&& !before.meta.contains_key(block) && after.meta.contains_key(block) ==> {
                &&& tree.nodes.contains_key(block)
                &&& after.meta[block].block_creation_slot == tree.nodes[block].block.slot
                &&& exists|k: int| 0 <= k <= n && #[trigger] line[k] == block
            }
        }
    &&& forall|k: int|
        0 <= k <= n && tree.nodes.contains_key(#[trigger] line[k]) ==> after.meta.contains_key(
            line[k],
        )
}

/// What a stop of the search from a head says of what was searched.
proof fn lemma_searched<S: StateProvider>(
    before: FastConfirmationView<S>,
    tree: ProtoArrayView,
    fc: ForkChoiceStore,
    head: Hash256,
    after: FastConfirmationView<S>,
    outcome: Result<HeadUpdate, Error>,
    n: int,
)
    requires
        before.scan_stop(tree, fc, head, n, after, outcome),
    ensures
        searched_up_to(before, tree, fc, head, after, n),
{
    let line = tree.lineage(head);
    let seen = track_line(before.meta, tree, line, n + 1);
    assert forall|block: Hash256|
        {
            &&& before.meta.contains_key(block) ==> #[trigger] after.meta.contains_key(block)
                && after.meta[block].block_creation_slot == before.meta[block].block_creation_slot
            &&& !before.meta.contains_key(block) && after.meta.contains_key(block) ==> {
                &&& tree.nodes.contains_key(block)
                &&& after.meta[block].block_creation_slot == tree.nodes[block].block.slot
                &&& exists|k: int| 0 <= k <= n && #[trigger] line[k] == block
            }
        } by {
        lemma_seen_line(before.meta, tree, line, n + 1, block);
        lemma_seen_line(before.meta, tree, line, n + 1, line[n]);
        if !before.meta.contains_key(block) && after.meta.contains_key(block) {
            if block == line[n] && !seen.contains_key(block) {
                assert(!tree.known(block));
                assert(false);
            }
            let k = choose|k: int| 0 <= k < n + 1 && #[trigger] line[k] == block;
            assert(0 <= k <= n && line[k] == block);
        }
    }
    assert forall|k: int|
        0 <= k <= n && tree.nodes.contains_key(#[trigger] line[k]) implies after.meta.contains_key(
        line[k],
    ) by {
        lemma_seen_line(before.meta, tree, line, n + 1, line[k]);
    }
    assert forall|j: int| 0 <= j < n implies passed_over(before, tree, fc, #[trigger] line[j]) by {
        assert(!before.is_confirmed(line[j]));
    }
}

/// The block that the search from a head finds is the first one on the way down, among the first
/// thirty-two, that is confirmed or has the votes. It becomes the safe head. If it was not
/// confirmed before, it is now, with a record, and so are the remembered blocks after it.
pub proof fn law_search_finds_the_nearest_confirmed_block<S: StateProvider>(
    before: FastConfirmationView<S>,
    tree: ProtoArrayView,
    fc: ForkChoiceStore,
    head: Hash256,
    after: FastConfirmationView<S>,
    update: HeadUpdate,
    root: Hash256,
    block: Hash256,
)
    requires
        before.head_updated(tree, fc, head, after, Ok(update)),
        update.confirmed_ancestor == Some(root),
    ensures
        exists|n: int| #[trigger]
            searched_up_to(before, tree, fc, head, after, n) && tree.lineage(head)[n] == root,
        after.rule.store.safe_head_root == root,
        before.rule.store.safe_head_root == no_block() || !is_ancestor(
            tree,
            head,
            before.rule.store.safe_head_root,
        ),
        ({
            let was_confirmed = before.meta.contains_key(root) && before.meta[root].confirmed;
            &&& update.confirmation is None <==> was_confirmed
            &&& !was_confirmed ==> before.rule.one_confirmed(tree, fc, root, Ok(true))
            &&& after.meta.contains_key(root) && after.meta[root].confirmed || was_confirmed
            &&& !was_confirmed && after.meta.contains_key(block) && tree.is_descendant(root, block)
                ==> after.meta[block].confirmed
            &&& was_confirmed && before.meta.contains_key(block) ==> after.meta[block]
                == before.meta[block]
            &&& !was_confirmed && before.meta.contains_key(block) && block != root
                && !tree.is_descendant(root, block) ==> after.meta[block] == before.meta[block]
        }),
{
    let n = choose|n: int| before.scan_stop(tree, fc, head, n, after, Ok(update));
    let line = tree.lineage(head);
    lemma_searched(before, tree, fc, head, after, Ok(update), n);
    lemma_seen_line(before.meta, tree, line, n + 1, root);
    lemma_seen_line(before.meta, tree, line, n + 1, block);
    assert(searched_up_to(before, tree, fc, head, after, n) && line[n] == root);
}

/// The record of a confirmation by a new head: how long it took since the block was first seen, or
/// since its own slot, and how far it lies behind the head.
pub proof fn law_heads_record_the_confirmation<S: StateProvider>(
    before: FastConfirmationView<S>,
    tree: ProtoArrayView,
    fc: ForkChoiceStore,
    head: Hash256,
    after: FastConfirmationView<S>,
    update: HeadUpdate,
    root: Hash256,
    record: ConfirmationRecord,
    created: Slot,
    head_slot: Slot,
)
    requires
        before.head_updated(tree, fc, head, after, Ok(update)),
        update.confirmed_ancestor == Some(root),
        update.confirmation == Some(record),
        tree.nodes.contains_key(root),
        before.meta.contains_key(root) ==> created == before.meta[root].block_creation_slot,
        !before.meta.contains_key(root) ==> created == tree.nodes[root].block.slot,
        tree.nodes.contains_key(head) ==> head_slot == tree.nodes[head].block.slot,
        !tree.nodes.contains_key(head) ==> head_slot == fc.current_slot,
    ensures
        record.delay is Some <==> created.0 <= fc.current_slot.0,
        record.delay matches Some(delay) ==> created.0 + delay.slots == fc.current_slot.0,
        record.head_gap_slots is Some,
        if tree.nodes[root].block.slot.0 <= head_slot.0 {
            tree.nodes[root].block.slot.0 + record.head_gap_slots->0 == head_slot.0
        } else {
            record.head_gap_slots->0 == 0
        },
        after.meta[root].confirmation_slot == Some(fc.current_slot),
{
    let n = choose|n: int| before.scan_stop(tree, fc, head, n, after, Ok(update));
    let line = tree.lineage(head);
    lemma_seen_line(before.meta, tree, line, n + 1, root);
    assert(line[n] == root);
}

/// A head finds no block only if its safe head stays, or if the search passed over all of the
/// head's lineage, or over its first thirty-two blocks. The rule stays as it was then, and no
/// block is confirmed.
pub proof fn law_search_gives_up_at_its_end_only<S: StateProvider>(
    before: FastConfirmationView<S>,
    tree: ProtoArrayView,
    fc: ForkChoiceStore,
    head: Hash256,
    after: FastConfirmationView<S>,
    update: HeadUpdate,
    block: Hash256,
)
    requires
        before.head_updated(tree, fc, head, after, Ok(update)),
        update.confirmed_ancestor is None,
        before.rule.store.safe_head_root == no_block() || !is_ancestor(
            tree,
            head,
            before.rule.store.safe_head_root,
        ),
    ensures
        exists|n: int| #[trigger]
            searched_up_to(before, tree, fc, head, after, n) && passed_over(
                before,
                tree,
                fc,
                tree.lineage(head)[n],
            ) && (n == 31 || n == tree.lineage(head).len() - 1),
        after.rule == before.rule,
        update.confirmation is None && update.reorg_distance is None,
        before.meta.contains_key(block) ==> after.meta[block] == before.meta[block],
        !before.meta.contains_key(block) && after.meta.contains_key(block)
            ==> !after.meta[block].confirmed,
{
    let n = choose|n: int| before.scan_stop(tree, fc, head, n, after, Ok(update));
    let line = tree.lineage(head);
    lemma_searched(before, tree, fc, head, after, Ok(update), n);
    lemma_seen_line(before.meta, tree, line, n + 1, block);
    assert(!before.is_confirmed(line[n]));
    assert(searched_up_to(before, tree, fc, head, after, n) && passed_over(
        before,
        tree,
        fc,
        line[n],
    ));
}

/// A head fails with the error of a block's check: the first one on the way down that was not
/// passed over. The rule stays as it was, and no block is confirmed.
pub proof fn law_search_fails_at_a_block<S: StateProvider>(
    before: FastConfirmationView<S>,
    tree: ProtoArrayView,
    fc: ForkChoiceStore,
    head: Hash256,
    after: FastConfirmationView<S>,
    error: Error,
    block: Hash256,
)
    requires
        before.head_updated(tree, fc, head, after, Err(error)),
    ensures
        exists|n: int| #[trigger]
            searched_up_to(before, tree, fc, head, after, n) && before.rule.one_confirmed(
                tree,
                fc,
                tree.lineage(head)[n],
                Err(error),
            ),
        after.rule == before.rule,
        before.meta.contains_key(block) ==> after.meta[block] == before.meta[block],
        !before.meta.contains_key(block) && after.meta.contains_key(block)
            ==> !after.meta[block].confirmed,
{
    let n = choose|n: int| before.scan_stop(tree, fc, head, n, after, Err(error));
    let line = tree.lineage(head);
    lemma_searched(before, tree, fc, head, after, Err(error), n);
    lemma_seen_line(before.meta, tree, line, n + 1, block);
    assert(searched_up_to(before, tree, fc, head, after, n) && before.rule.one_confirmed(
        tree,
        fc,
        line[n],
        Err(error),
    ));
}

/// Whether `distance` counts the blocks of the old safe head's lineage that the new one leaves
/// behind, up to the last block that both have before them.
pub open spec fn leaves_behind(
    tree: ProtoArrayView,
    old_head: Hash256,
    new_head: Hash256,
    distance: u64,
) -> bool {
    let line = tree.lineage(old_head);
    &&& distance <= line.len()
    &&& forall|i: int| 0 <= i < distance ==> !is_ancestor(tree, new_head, #[trigger] line[i])
    &&& distance < line.len() && distance < u64::MAX ==> is_ancestor(
        tree,
        new_head,
        line[distance as int],
    )
}

/// A reorganisation of the safe head is told with the blocks that it leaves behind.
pub proof fn law_reorgs_are_counted(tree: ProtoArrayView, old_head: Hash256, new_head: Hash256)
    ensures
        safe_head_reorg(tree, old_head, new_head) is Some <==> old_head != no_block()
            && !is_ancestor(tree, new_head, old_head),
        safe_head_reorg(tree, old_head, new_head) matches Some(distance) ==> leaves_behind(
            tree,
            old_head,
            new_head,
            distance,
        ),
{
    law_reorgs_give_up_unshared_blocks(tree, tree.lineage(old_head), new_head);
}

/// Slots and heads both tell of a reorganisation of the safe head with the blocks that it leaves
/// behind.
pub proof fn law_updates_count_reorgs<S: StateProvider>(
    before: FastConfirmationView<S>,
    tree: ProtoArrayView,
    fc: ForkChoiceStore,
    head: Hash256,
    after: FastConfirmationView<S>,
    slot: SlotUpdate,
    found: HeadUpdate,
    distance: u64,
)
    ensures
        before.slot_updated(tree, fc, head, after, slot) && slot.reorg_distance == Some(distance)
            ==> leaves_behind(
            tree,
            before.rule.store.safe_head_root,
            after.rule.store.safe_head_root,
            distance,
        ),
        before.head_updated(tree, fc, head, after, Ok(found)) && found.reorg_distance == Some(
            distance,
        ) ==> leaves_behind(
            tree,
            before.rule.store.safe_head_root,
            after.rule.store.safe_head_root,
            distance,
        ),
{
    law_reorgs_are_counted(
        tree,
        before.rule.store.safe_head_root,
        after.rule.store.safe_head_root,
    );
    if before.head_updated(tree, fc, head, after, Ok(found)) && found.reorg_distance is Some {
        let n = choose|n: int| before.scan_stop(tree, fc, head, n, after, Ok(found));
        assert(before.scan_stop(tree, fc, head, n, after, Ok(found)));
    }
}

/// Delays are told apart up to three slots, and tail cases from two slots to four; a tail case
/// tells whether the confirmation came in the first slot of an epoch.
pub proof fn law_delays_are_classified(delay_slots: u64, current_slot: Slot, slots_per_epoch: u64)
    ensures
        ({
            let delay = delay_of(delay_slots, current_slot, slots_per_epoch);
            &&& delay.slots == delay_slots
            &&& delay.bucket is Zero <==> delay_slots == 0
            &&& delay.bucket is One <==> delay_slots == 1
            &&& delay.bucket is Two <==> delay_slots == 2
            &&& delay.bucket is ThreeOrMore <==> delay_slots >= 3
            &&& delay.tail_case is Some <==> delay_slots >= 2
            &&& delay.tail_case matches Some(tail) ==> {
                &&& tail.epoch_boundary <==> current_slot.0 % slots_per_epoch == 0
                &&& tail.delay_bucket is Two <==> delay_slots == 2
                &&& tail.delay_bucket is Three <==> delay_slots == 3
                &&& tail.delay_bucket is FourOrMore <==> delay_slots >= 4
            }
        }),
{
}

/// The safe head's slot is shown as far as it is known; a head that is missing shows as zero.
pub proof fn law_safe_head_is_shown(tree: ProtoArrayView, root: Hash256, slot: Slot)
    ensures
        slot_or_zero(tree, root) == if tree.nodes.contains_key(root) {
            tree.nodes[root].block.slot.0
        } else {
            0
        },
        safe_head_gauge(ConfirmedHead::Missing) == Some(0i64),
        safe_head_gauge(ConfirmedHead::Unknown) is None,
        slot.0 <= i64::MAX ==> safe_head_gauge(ConfirmedHead::At(slot)) is Some && safe_head_gauge(
            ConfirmedHead::At(slot),
        )->0 == slot.0,
{
}

} // verus!
