//! From which block the rule goes on, and what it tells of going back.

use crate::fork_choice_store::ForkChoiceStore;
use crate::laws::confirmation::law_search_follows_the_chain;
use crate::metrics::{LatestConfirmation, Restart};
use crate::proto_array::ProtoArrayView;
use crate::rule::{is_ancestor, Rule};
use crate::state_provider::StateProvider;
use crate::types::Hash256;
use vstd::prelude::*;

verus! {

/// Whether the confirmed block from before can be gone on from: it is known, the head comes after
/// it, and its epoch lies no more than one before the current one.
pub open spec fn still_stands<S: StateProvider>(
    rule: Rule<S>,
    tree: ProtoArrayView,
    fc: ForkChoiceStore,
    head: Hash256,
) -> bool {
    let confirmed = rule.store.confirmed_root;
    &&& tree.nodes.contains_key(confirmed)
    &&& tree.is_descendant(confirmed, head)
    &&& tree.nodes[confirmed].block.slot.0 / rule.slots_per_epoch + 1 >= fc.current_slot.0
        / rule.slots_per_epoch
}

/// The block that the rule would go on from: the confirmed one if it still stands, and the
/// finalized one otherwise.
pub open spec fn footing<S: StateProvider>(
    rule: Rule<S>,
    tree: ProtoArrayView,
    fc: ForkChoiceStore,
    head: Hash256,
) -> Hash256 {
    if still_stands(rule, tree, fc, head) {
        rule.store.confirmed_root
    } else {
        fc.finalized_checkpoint.root
    }
}

/// Whether the previous slot's unrealized justified block is to be gone on from instead: the slot
/// is the first of its epoch, that block was justified in the epoch before, and it is later than
/// the block that the rule would go on from.
pub open spec fn lifted<S: StateProvider>(
    rule: Rule<S>,
    tree: ProtoArrayView,
    fc: ForkChoiceStore,
    head: Hash256,
) -> bool {
    let start = footing(rule, tree, fc, head);
    let checkpoint = rule.store.prev_slot_unrealized_justified_checkpoint;
    let epoch = fc.current_slot.0 / rule.slots_per_epoch;
    &&& fc.current_slot.0 % rule.slots_per_epoch == 0
    &&& checkpoint.epoch.0 + 1 == epoch || (checkpoint.epoch.0 == u64::MAX && epoch == u64::MAX)
    &&& tree.nodes.contains_key(start)
    &&& tree.nodes.contains_key(checkpoint.root)
    &&& tree.nodes[start].block.slot.0 < tree.nodes[checkpoint.root].block.slot.0
}

/// The rule goes on from the confirmed block as long as that is known, on the head's chain and no
/// older than the previous epoch; and from the finalized block otherwise. In the first slot of an
/// epoch it goes on from the block that the previous slot's unrealized justified checkpoint of the
/// previous epoch names, if that is later. Where the search from there fails, the rule stays
/// there.
pub proof fn law_where_the_rule_goes_on_from<S: StateProvider>(
    rule: Rule<S>,
    tree: ProtoArrayView,
    fc: ForkChoiceStore,
    head: Hash256,
    root: Hash256,
)
    requires
        tree.valid(),
        rule.latest_confirmed(tree, fc, head, root),
    ensures
        ({
            let from = if lifted(rule, tree, fc, head) {
                rule.store.prev_slot_unrealized_justified_checkpoint.root
            } else {
                footing(rule, tree, fc, head)
            };
            &&& is_ancestor(tree, root, from)
            &&& rule.latest_descendant(tree, fc, from, head, Some(root)) || (root == from
                && rule.latest_descendant(tree, fc, from, head, None))
        }),
{
    let base = rule.base_root(tree, fc, head);
    if rule.latest_descendant(tree, fc, base, head, Some(root)) {
        law_search_follows_the_chain(rule, tree, fc, base, head, root);
    }
}

/// A latest confirmed block that is neither the one from before, nor the finalized one after the
/// one from before no longer stands, nor one that has the votes, was lifted to: the slot is the
/// first of its epoch, and the block is that of the previous slot's unrealized justified
/// checkpoint, whose epoch is the one before the current one.
pub proof fn law_only_the_previous_epoch_lifts<S: StateProvider>(
    rule: Rule<S>,
    tree: ProtoArrayView,
    fc: ForkChoiceStore,
    head: Hash256,
    root: Hash256,
)
    requires
        tree.valid(),
        rule.latest_confirmed(tree, fc, head, root),
        root != rule.store.confirmed_root,
        still_stands(rule, tree, fc, head) || root != fc.finalized_checkpoint.root,
        !rule.one_confirmed(tree, fc, root, Ok(true)),
    ensures
        ({
            let checkpoint = rule.store.prev_slot_unrealized_justified_checkpoint;
            let epoch = fc.current_slot.0 / rule.slots_per_epoch;
            &&& fc.current_slot.0 % rule.slots_per_epoch == 0
            &&& root == checkpoint.root
            &&& checkpoint.epoch.0 < u64::MAX ==> checkpoint.epoch.0 + 1 == epoch
            &&& checkpoint.epoch.0 == u64::MAX ==> epoch == u64::MAX
            &&& tree.nodes.contains_key(root)
            &&& tree.nodes[footing(rule, tree, fc, head)].block.slot.0
                < tree.nodes[root].block.slot.0
        }),
{
    let base = rule.base_root(tree, fc, head);
    if rule.latest_descendant(tree, fc, base, head, Some(root)) {
        law_search_follows_the_chain(rule, tree, fc, base, head, root);
    }
}

/// Within an epoch, the confirmed block stays or a block after it takes its place, as long as it
/// still stands. A block of two epochs before, an unknown one, and one off the head's chain are
/// given up for the finalized block and those after it.
pub proof fn law_confirmed_block_is_kept_while_it_stands<S: StateProvider>(
    rule: Rule<S>,
    tree: ProtoArrayView,
    fc: ForkChoiceStore,
    head: Hash256,
    root: Hash256,
)
    requires
        tree.valid(),
        fc.current_slot.0 % rule.slots_per_epoch != 0,
        rule.latest_confirmed(tree, fc, head, root),
    ensures
        still_stands(rule, tree, fc, head) ==> is_ancestor(tree, root, rule.store.confirmed_root),
        !still_stands(rule, tree, fc, head) ==> is_ancestor(
            tree,
            root,
            fc.finalized_checkpoint.root,
        ),
{
    law_where_the_rule_goes_on_from(rule, tree, fc, head, root);
}

/// A restart is told exactly if the confirmed block no longer stands: as a reorg if the block is
/// known but off the head's chain, with the slots from it back to the block that came out; and as
/// stale otherwise.
pub proof fn law_restarts_are_told<S: StateProvider>(
    rule: Rule<S>,
    tree: ProtoArrayView,
    fc: ForkChoiceStore,
    head: Hash256,
    latest: LatestConfirmation,
)
    requires
        rule.assessed(tree, fc, head, latest),
    ensures
        latest.restart is None <==> still_stands(rule, tree, fc, head),
        ({
            let confirmed = rule.store.confirmed_root;
            let off_chain = tree.nodes.contains_key(confirmed) && !tree.is_descendant(
                confirmed,
                head,
            );
            &&& off_chain && !tree.nodes.contains_key(latest.root) ==> latest.restart == Some(
                Restart::Reorg(None),
            )
            &&& off_chain && tree.nodes.contains_key(latest.root) ==> match latest.restart {
                Some(Restart::Reorg(Some(slots))) => {
                    &&& slots == 0 || tree.nodes[latest.root].block.slot.0 + slots
                        == tree.nodes[confirmed].block.slot.0
                    &&& slots == 0 ==> tree.nodes[confirmed].block.slot.0
                        <= tree.nodes[latest.root].block.slot.0
                },
                _ => false,
            }
            &&& !off_chain && !still_stands(rule, tree, fc, head) ==> latest.restart == Some(
                Restart::Stale,
            )
        }),
{
}

/// A rollback is told exactly if the block that came out and the confirmed one from before are
/// both known and the former lies in an earlier slot; it tells by how many slots.
pub proof fn law_rollbacks_are_told<S: StateProvider>(
    rule: Rule<S>,
    tree: ProtoArrayView,
    fc: ForkChoiceStore,
    head: Hash256,
    latest: LatestConfirmation,
)
    requires
        rule.assessed(tree, fc, head, latest),
    ensures
        ({
            let confirmed = rule.store.confirmed_root;
            let back = tree.nodes.contains_key(confirmed) && tree.nodes.contains_key(latest.root)
                && tree.nodes[latest.root].block.slot.0 < tree.nodes[confirmed].block.slot.0;
            &&& latest.rollback_slots is Some <==> back
            &&& latest.rollback_slots matches Some(slots) ==> tree.nodes[latest.root].block.slot.0
                + slots == tree.nodes[confirmed].block.slot.0
        }),
        rule.latest_confirmed(tree, fc, head, latest.root),
{
}

} // verus!
