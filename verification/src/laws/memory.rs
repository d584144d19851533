//! What slots, heads and prunings keep of what the rule remembers.

use crate::error::Error;
use crate::fork_choice_store::ForkChoiceStore;
use crate::memory::{
    lemma_track_line, marked_meta, pruned_meta, tracked_meta, unshared, FastConfirmationView,
    FcrMeta,
};
use crate::metrics::{HeadUpdate, SlotUpdate};
use crate::proto_array::ProtoArrayView;
use crate::rule::is_ancestor;
use crate::state_provider::StateProvider;
use crate::types::{Hash256, Slot};
use vstd::prelude::*;

verus! {

/// A block is taken note of once: seeing it again, even with another slot, changes nothing.
pub proof fn law_tracking_happens_once(
    meta: Map<Hash256, FcrMeta>,
    root: Hash256,
    slot: Slot,
    other_slot: Slot,
)
    ensures
        tracked_meta(tracked_meta(meta, root, slot), root, other_slot) == tracked_meta(
            meta,
            root,
            slot,
        ),
{
}

/// Taking note of a block changes nothing for the others, and confirms none.
pub proof fn law_tracking_leaves_others_alone(
    meta: Map<Hash256, FcrMeta>,
    root: Hash256,
    slot: Slot,
    other: Hash256,
)
    ensures
        meta.contains_key(other) ==> tracked_meta(meta, root, slot).contains_key(other)
            && tracked_meta(meta, root, slot)[other] == meta[other],
        other != root && !meta.contains_key(other) ==> !tracked_meta(
            meta,
            root,
            slot,
        ).contains_key(other),
        !meta.contains_key(root) ==> !tracked_meta(meta, root, slot)[root].confirmed,
{
}

/// Marking a block confirms it in the current slot, and keeps the slot in which it was created.
pub proof fn law_marking_confirms_the_block(
    meta: Map<Hash256, FcrMeta>,
    tree: ProtoArrayView,
    root: Hash256,
    current_slot: Slot,
)
    ensures
        marked_meta(meta, tree, root, current_slot).contains_key(root),
        marked_meta(meta, tree, root, current_slot)[root].confirmed,
        marked_meta(meta, tree, root, current_slot)[root].confirmation_slot == Some(current_slot),
        meta.contains_key(root) ==> marked_meta(meta, tree, root, current_slot)[root]
            .block_creation_slot == meta[root].block_creation_slot,
{
}

/// The blocks after a marked one inherit its confirmation: each one that is remembered is
/// confirmed then, in the current slot unless it was confirmed before.
pub proof fn law_descendants_inherit_confirmation(
    meta: Map<Hash256, FcrMeta>,
    tree: ProtoArrayView,
    root: Hash256,
    current_slot: Slot,
    descendant: Hash256,
)
    requires
        meta.contains_key(descendant),
        descendant != root,
        tree.is_descendant(root, descendant),
    ensures
        ({
            let before = meta[descendant];
            let after = marked_meta(meta, tree, root, current_slot)[descendant];
            &&& marked_meta(meta, tree, root, current_slot).contains_key(descendant)
            &&& after.confirmed
            &&& after.confirmation_slot == if before.confirmed {
                before.confirmation_slot
            } else {
                Some(current_slot)
            }
            &&& after.block_creation_slot == before.block_creation_slot
        }),
{
}

/// Marking a block changes nothing for blocks that do not come after it, and adds no other block
/// to those that are remembered.
pub proof fn law_marking_leaves_other_blocks_alone(
    meta: Map<Hash256, FcrMeta>,
    tree: ProtoArrayView,
    root: Hash256,
    current_slot: Slot,
    other: Hash256,
)
    requires
        other != root,
    ensures
        marked_meta(meta, tree, root, current_slot).contains_key(other) == meta.contains_key(other),
        meta.contains_key(other) && !tree.is_descendant(root, other) ==> marked_meta(
            meta,
            tree,
            root,
            current_slot,
        )[other] == meta[other],
{
}

/// A new slot confirms no other blocks than the latest confirmed one and those after it, and only
/// where another block than before came out.
pub proof fn law_slots_confirm_from_the_latest_block_on<S: StateProvider>(
    before: FastConfirmationView<S>,
    tree: ProtoArrayView,
    fc: ForkChoiceStore,
    head: Hash256,
    after: FastConfirmationView<S>,
    update: SlotUpdate,
    root: Hash256,
)
    requires
        before.slot_updated(tree, fc, head, after, update),
        !before.is_confirmed(root),
        after.is_confirmed(root),
    ensures
        is_ancestor(tree, root, update.latest.root),
        update.latest.root != before.rule.store.confirmed_root,
        before.rule.latest_confirmed(tree, fc, head, update.latest.root),
        after.meta[root].confirmation_slot == Some(fc.current_slot),
{
}

/// A new head confirms no other blocks than the one that the search from it finds and those after
/// it, and only where that one has the votes to be confirmed.
pub proof fn law_heads_confirm_from_a_block_with_votes_on<S: StateProvider>(
    before: FastConfirmationView<S>,
    tree: ProtoArrayView,
    fc: ForkChoiceStore,
    head: Hash256,
    after: FastConfirmationView<S>,
    outcome: Result<HeadUpdate, Error>,
    root: Hash256,
)
    requires
        before.head_updated(tree, fc, head, after, outcome),
        !before.is_confirmed(root),
        after.is_confirmed(root),
    ensures
        outcome matches Ok(update) && update.confirmed_ancestor matches Some(found) && is_ancestor(
            tree,
            root,
            found,
        ) && before.rule.one_confirmed(tree, fc, found, Ok(true)),
        after.meta[root].confirmation_slot == Some(fc.current_slot),
{
    if !before.keeps_safe_head(tree, head) {
        let n = choose|n: int| before.scan_stop(tree, fc, head, n, after, outcome);
        lemma_track_line(before.meta, tree, tree.lineage(head), n + 1, root);
    }
}

/// A new slot reports a reorganisation of the safe head exactly where there was a safe head, and
/// it moved to a block that does not come after it. At least one block is given up then.
pub proof fn law_slots_report_safe_head_reorgs<S: StateProvider>(
    before: FastConfirmationView<S>,
    tree: ProtoArrayView,
    fc: ForkChoiceStore,
    head: Hash256,
    after: FastConfirmationView<S>,
    update: SlotUpdate,
)
    requires
        tree.valid(),
        before.slot_updated(tree, fc, head, after, update),
    ensures
        ({
            let old_head = before.rule.store.safe_head_root;
            let new_head = after.rule.store.safe_head_root;
            &&& update.reorg_distance is Some <==> old_head != Hash256::spec_zero() && new_head
                != old_head && !is_ancestor(tree, new_head, old_head)
            &&& update.reorg_distance matches Some(distance) ==> distance > 0
        }),
{
    let old_head = before.rule.store.safe_head_root;
    tree.lemma_lineage_step(old_head);
}

/// A new head reports a reorganisation of the safe head exactly where there was a safe head, and
/// it moved to a block that does not come after it. At least one block is given up then.
pub proof fn law_heads_report_safe_head_reorgs<S: StateProvider>(
    before: FastConfirmationView<S>,
    tree: ProtoArrayView,
    fc: ForkChoiceStore,
    head: Hash256,
    after: FastConfirmationView<S>,
    update: HeadUpdate,
)
    requires
        tree.valid(),
        before.head_updated(tree, fc, head, after, Ok(update)),
    ensures
        ({
            let old_head = before.rule.store.safe_head_root;
            let new_head = after.rule.store.safe_head_root;
            &&& update.reorg_distance is Some <==> old_head != Hash256::spec_zero() && new_head
                != old_head && !is_ancestor(tree, new_head, old_head)
            &&& update.reorg_distance matches Some(distance) ==> distance > 0
        }),
{
    let old_head = before.rule.store.safe_head_root;
    tree.lemma_lineage_step(old_head);
    if !before.keeps_safe_head(tree, head) {
        let n = choose|n: int| before.scan_stop(tree, fc, head, n, after, Ok(update));
        assert(before.scan_stop(tree, fc, head, n, after, Ok(update)));
    }
}

/// The blocks that a reorganisation gives up are those before the first one that the new safe head
/// has before it: none of them is an ancestor of the new safe head, and what follows them is.
pub proof fn law_reorgs_give_up_unshared_blocks(
    tree: ProtoArrayView,
    line: Seq<Hash256>,
    root: Hash256,
)
    ensures
        unshared(tree, line, root) <= line.len(),
        forall|i: int|
            0 <= i < unshared(tree, line, root) ==> !is_ancestor(tree, root, #[trigger] line[i]),
        unshared(tree, line, root) < line.len() ==> is_ancestor(
            tree,
            root,
            line[unshared(tree, line, root) as int],
        ),
    decreases line.len(),
{
    if line.len() > 0 && !is_ancestor(tree, root, line[0]) {
        let rest = line.skip(1);
        law_reorgs_give_up_unshared_blocks(tree, rest, root);
        assert forall|i: int| 0 <= i < unshared(tree, line, root) implies !is_ancestor(
            tree,
            root,
            #[trigger] line[i],
        ) by {
            if i > 0 {
                assert(rest[i - 1] == line[i]);
            }
        }
    }
}

/// A new slot leaves confirmed blocks confirmed.
pub proof fn law_slots_keep_confirmations<S: StateProvider>(
    before: FastConfirmationView<S>,
    tree: ProtoArrayView,
    fc: ForkChoiceStore,
    head: Hash256,
    after: FastConfirmationView<S>,
    update: SlotUpdate,
    root: Hash256,
)
    requires
        before.slot_updated(tree, fc, head, after, update),
        before.is_confirmed(root),
    ensures
        after.is_confirmed(root),
{
}

/// A new head leaves confirmed blocks confirmed, also where the search from it fails.
pub proof fn law_heads_keep_confirmations<S: StateProvider>(
    before: FastConfirmationView<S>,
    tree: ProtoArrayView,
    fc: ForkChoiceStore,
    head: Hash256,
    after: FastConfirmationView<S>,
    outcome: Result<HeadUpdate, Error>,
    root: Hash256,
)
    requires
        before.head_updated(tree, fc, head, after, outcome),
        before.is_confirmed(root),
    ensures
        after.is_confirmed(root),
{
    if !before.keeps_safe_head(tree, head) {
        let n = choose|n: int| before.scan_stop(tree, fc, head, n, after, outcome);
        lemma_track_line(before.meta, tree, tree.lineage(head), n + 1, root);
    }
}

/// After a new slot the safe head is the latest confirmed block; if that is another block than
/// before, it is marked as confirmed in this slot.
pub proof fn law_safe_head_is_the_confirmed_block<S: StateProvider>(
    before: FastConfirmationView<S>,
    tree: ProtoArrayView,
    fc: ForkChoiceStore,
    head: Hash256,
    after: FastConfirmationView<S>,
    update: SlotUpdate,
)
    requires
        before.slot_updated(tree, fc, head, after, update),
    ensures
        after.rule.store.safe_head_root == after.rule.store.confirmed_root,
        after.rule.store.confirmed_root == update.latest.root,
        after.rule.store.confirmed_root != before.rule.store.confirmed_root
            ==> after.is_confirmed(after.rule.store.confirmed_root)
            && after.meta[after.rule.store.confirmed_root].confirmation_slot == Some(
            fc.current_slot,
        ),
{
}

/// The checkpoint that weights are taken from changes in the first slot of an epoch only.
pub proof fn law_weighting_checkpoint_holds_for_an_epoch<S: StateProvider>(
    before: FastConfirmationView<S>,
    tree: ProtoArrayView,
    fc: ForkChoiceStore,
    head: Hash256,
    after: FastConfirmationView<S>,
    update: SlotUpdate,
)
    requires
        before.slot_updated(tree, fc, head, after, update),
        fc.current_slot.0 % before.rule.slots_per_epoch != 0,
    ensures
        after.rule.store.prev_epoch_unrealized_justified_checkpoint
            == before.rule.store.prev_epoch_unrealized_justified_checkpoint,
{
}

/// A new slot changes neither the thresholds nor the state provider.
pub proof fn law_slots_keep_the_setup<S: StateProvider>(
    before: FastConfirmationView<S>,
    tree: ProtoArrayView,
    fc: ForkChoiceStore,
    head: Hash256,
    after: FastConfirmationView<S>,
    update: SlotUpdate,
)
    requires
        before.slot_updated(tree, fc, head, after, update),
    ensures
        after.rule.config == before.rule.config,
        after.rule.slots_per_epoch == before.rule.slots_per_epoch,
        after.rule.provider == before.rule.provider,
{
}

/// A new head moves the safe head at most: the confirmed block and what is kept for the next slot
/// stay. Where the search fails or finds nothing, the safe head stays too.
pub proof fn law_heads_move_the_safe_head_only<S: StateProvider>(
    before: FastConfirmationView<S>,
    tree: ProtoArrayView,
    fc: ForkChoiceStore,
    head: Hash256,
    after: FastConfirmationView<S>,
    outcome: Result<HeadUpdate, Error>,
)
    requires
        before.head_updated(tree, fc, head, after, outcome),
    ensures
        after.rule == before.with_safe_head(after.rule.store.safe_head_root).rule,
        (outcome matches Ok(update) ==> update.confirmed_ancestor is None)
            ==> after.rule.store.safe_head_root == before.rule.store.safe_head_root,
{
    if !before.keeps_safe_head(tree, head) {
        let n = choose|n: int| before.scan_stop(tree, fc, head, n, after, outcome);
        assert(before.scan_stop(tree, fc, head, n, after, outcome));
    }
}

/// Where the search from a new head finds a confirmed block, that block becomes the safe head, is
/// the head or comes before it, and is marked as confirmed. Where no search is needed, the safe
/// head is the head already or comes before it.
pub proof fn law_found_safe_head_is_confirmed_and_on_the_heads_chain<S: StateProvider>(
    before: FastConfirmationView<S>,
    tree: ProtoArrayView,
    fc: ForkChoiceStore,
    head: Hash256,
    after: FastConfirmationView<S>,
    outcome: Result<HeadUpdate, Error>,
)
    requires
        tree.valid(),
        before.head_updated(tree, fc, head, after, outcome),
    ensures
        outcome matches Ok(update) ==> (update.confirmed_ancestor matches Some(root)
            ==> after.rule.store.safe_head_root == root && is_ancestor(tree, head, root)
            && after.is_confirmed(root)),
        before.keeps_safe_head(tree, head) ==> is_ancestor(
            tree,
            head,
            after.rule.store.safe_head_root,
        ),
{
    if !before.keeps_safe_head(tree, head) && outcome is Ok {
        let update = outcome->Ok_0;
        if update.confirmed_ancestor is Some {
            let root = update.confirmed_ancestor->0;
            let n = choose|n: int| before.scan_stop(tree, fc, head, n, after, outcome);
            let line = tree.lineage(head);
            assert(root == line[n]);
            tree.lemma_lineage_step(head);
            lemma_track_line(before.meta, tree, line, n + 1, root);
            if n > 0 {
                tree.lemma_lineage_parent(head, n - 1);
                let child = line[n - 1];
                assert(before.rule.one_confirmed(tree, fc, child, Ok(false)));
                assert(tree.known(line[n]));
            }
        }
    }
}

/// A pruning leaves what is remembered of blocks that the tree knows, in slots no earlier than the
/// finalized block's, and of no others; it adds and changes nothing.
pub proof fn law_pruning_keeps_recent_blocks(
    meta: Map<Hash256, FcrMeta>,
    tree: ProtoArrayView,
    finalized: Hash256,
    root: Hash256,
)
    ensures
        pruned_meta(meta, tree, finalized).contains_key(root) <==> meta.contains_key(root)
            && tree.nodes.contains_key(root) && tree.nodes[finalized].block.slot.0
            <= tree.nodes[root].block.slot.0,
        pruned_meta(meta, tree, finalized).contains_key(root) ==> pruned_meta(
            meta,
            tree,
            finalized,
        )[root] == meta[root],
{
}

/// Pruning twice is pruning once.
pub proof fn law_pruning_twice_is_pruning_once(
    meta: Map<Hash256, FcrMeta>,
    tree: ProtoArrayView,
    finalized: Hash256,
)
    ensures
        pruned_meta(pruned_meta(meta, tree, finalized), tree, finalized) == pruned_meta(
            meta,
            tree,
            finalized,
        ),
{
    assert(pruned_meta(pruned_meta(meta, tree, finalized), tree, finalized) =~= pruned_meta(
        meta,
        tree,
        finalized,
    ));
}

/// A pruning never leaves more blocks than there were.
pub proof fn law_pruning_never_grows_the_memory(
    meta: Map<Hash256, FcrMeta>,
    tree: ProtoArrayView,
    finalized: Hash256,
)
    requires
        meta.dom().finite(),
    ensures
        pruned_meta(meta, tree, finalized).dom().finite(),
        pruned_meta(meta, tree, finalized).len() <= meta.len(),
{
    let kept = pruned_meta(meta, tree, finalized).dom();
    assert(kept.subset_of(meta.dom()));
    vstd::set_lib::lemma_len_subset(kept, meta.dom());
}

} // verus!
