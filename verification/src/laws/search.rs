//! When the search for the latest confirmed block moves on, how far it goes, and what it rests on.

use crate::error::Error;
use crate::fork_choice_store::ForkChoiceStore;
use crate::laws::ancestry::{
    law_ancestors_form_a_chain, law_ancestors_lie_in_earlier_slots, law_ancestors_of_ancestors,
    law_no_two_blocks_precede_each_other,
};
use crate::laws::confirmation::{
    lemma_checkpoint_block_of_its_own_epoch, lemma_current_epoch_step, lemma_on_path,
    lemma_path_descends, lemma_previous_epoch_step, lemma_stretches, on_the_way,
};
use crate::proto_array::ProtoArrayView;
use crate::rule::Rule;
use crate::state_provider::StateProvider;
use crate::types::{Checkpoint, Epoch, Hash256};
use crate::votes::{canonical_roots, is_voting_source, lemma_canonical_roots};
use vstd::arithmetic::div_mod::lemma_div_is_ordered;
use vstd::prelude::*;

verus! {

/// Whether a block is known to justify a checkpoint of `epoch`, of the epoch before it, or of a
/// later one.
pub open spec fn justifies_lately(tree: ProtoArrayView, root: Hash256, epoch: u64) -> bool {
    &&& tree.nodes.contains_key(root)
    &&& tree.nodes[root].block.unrealized_justified_checkpoint is Some
    &&& tree.nodes[root].block.unrealized_justified_checkpoint->0.epoch.0 + 1 >= epoch
}

/// Whether most votes for a block and those after it can be taken to be of an epoch that lies no
/// more than two before the current one.
pub open spec fn voted_lately<S: StateProvider>(
    rule: Rule<S>,
    tree: ProtoArrayView,
    fc: ForkChoiceStore,
    root: Hash256,
) -> bool {
    exists|source: Epoch| #[trigger]
        is_voting_source(
            tree,
            fc.justified_balances.effective_balances@,
            root,
            rule.store.prev_slot_unrealized_justified_checkpoint.epoch,
            source,
        ) && source.0 + 2 >= fc.current_slot.0 / rule.slots_per_epoch
}

/// Whether most votes for a block and those after it can only be taken to be of an epoch that lies
/// no more than two before the current one.
pub open spec fn surely_voted_lately<S: StateProvider>(
    rule: Rule<S>,
    tree: ProtoArrayView,
    fc: ForkChoiceStore,
    root: Hash256,
) -> bool {
    forall|source: Epoch| #[trigger]
        is_voting_source(
            tree,
            fc.justified_balances.effective_balances@,
            root,
            rule.store.prev_slot_unrealized_justified_checkpoint.epoch,
            source,
        ) ==> source.0 + 2 >= fc.current_slot.0 / rule.slots_per_epoch
}

/// Whether the search can move on in this slot at all: the slot is the first of its epoch, or the
/// previous slot's head or the head justifies a checkpoint of the previous epoch or a later one.
pub open spec fn can_move<S: StateProvider>(
    rule: Rule<S>,
    tree: ProtoArrayView,
    fc: ForkChoiceStore,
    head: Hash256,
) -> bool {
    let epoch = fc.current_slot.0 / rule.slots_per_epoch;
    ||| fc.current_slot.0 % rule.slots_per_epoch == 0
    ||| justifies_lately(tree, rule.store.prev_slot_head, epoch)
    ||| justifies_lately(tree, head, epoch)
}

/// Within an epoch, the search rests where it began unless the previous slot's head or the head
/// is known, and justifies a checkpoint whose epoch lies no more than one before the current one.
pub proof fn law_search_rests_without_recent_justification<S: StateProvider>(
    rule: Rule<S>,
    tree: ProtoArrayView,
    fc: ForkChoiceStore,
    confirmed: Hash256,
    head: Hash256,
    out: Option<Hash256>,
)
    requires
        tree.nodes.contains_key(confirmed),
        fc.current_slot.0 % rule.slots_per_epoch != 0,
        forall|block: Hash256|
            (block == head || block == rule.store.prev_slot_head) && #[trigger]
            tree.nodes.contains_key(block) ==> {
                let checkpoint = tree.nodes[block].block.unrealized_justified_checkpoint;
                checkpoint is None || checkpoint->0.epoch.0 + 1 < fc.current_slot.0
                    / rule.slots_per_epoch
            },
        rule.latest_descendant(tree, fc, confirmed, head, out),
    ensures
        out == Some(confirmed),
{
    assert(tree.known(head) ==> tree.nodes.contains_key(head));
    assert(tree.known(rule.store.prev_slot_head) ==> tree.nodes.contains_key(
        rule.store.prev_slot_head,
    ));
}

/// Going through the previous epoch leaves the start only if that is a block of the previous
/// epoch, the votes for the previous slot's head are recent, and the slot is the first of its
/// epoch, or no conflicting checkpoint will be justified and a head justifies a recent one. Every
/// block on the way has the votes, is not of the current epoch, and comes after the previous
/// slot's head or is it.
pub proof fn law_previous_epoch_is_left_with_care<S: StateProvider>(
    rule: Rule<S>,
    tree: ProtoArrayView,
    fc: ForkChoiceStore,
    from: Hash256,
    head: Hash256,
    out: Option<Hash256>,
)
    requires
        tree.valid(),
        tree.nodes.contains_key(from),
        rule.through_previous_epoch(tree, fc, from, head, out),
        out != Some(from),
    ensures
        tree.nodes[from].block.slot.0 / rule.slots_per_epoch < u64::MAX
            ==> tree.nodes[from].block.slot.0 / rule.slots_per_epoch + 1 == fc.current_slot.0
            / rule.slots_per_epoch,
        voted_lately(rule, tree, fc, rule.store.prev_slot_head),
        can_move(rule, tree, fc, head),
        fc.current_slot.0 % rule.slots_per_epoch == 0 || rule.no_conflict(tree, fc, head, Ok(true)),
        out matches Some(root) ==> forall|block: Hash256| #[trigger]
            on_the_way(tree, from, root, block) ==> {
                &&& tree.is_descendant(block, head)
                &&& tree.is_descendant(rule.store.prev_slot_head, block)
                &&& tree.nodes[block].block.slot.0 / rule.slots_per_epoch != fc.current_slot.0
                    / rule.slots_per_epoch
                &&& rule.one_confirmed(tree, fc, block, Ok(true))
            },
{
    let prev = rule.store.prev_slot_head;
    let (source, conflict) = choose|source: Epoch, conflict: Result<bool, Error>|
        #![trigger
            rule.voting_source(tree, fc, prev, source),
            rule.no_conflict(tree, fc, head, conflict)]
        {
            &&& rule.voting_source(tree, fc, prev, source)
            &&& rule.no_conflict(tree, fc, head, conflict)
            &&& if rule.prev_epoch_open(tree, fc, head, source, conflict) {
                match canonical_roots(tree, from, head) {
                    Some(path) => exists|n: int| rule.prev_epoch_stop(tree, fc, path, n, out),
                    None => out == Some(from),
                }
            } else {
                out == Some(from)
            }
        };
    assert(rule.prev_epoch_open(tree, fc, head, source, conflict));
    if let Some(root) = out {
        let path = canonical_roots(tree, from, head)->0;
        let n = choose|n: int| rule.prev_epoch_stop(tree, fc, path, n, out);
        lemma_path_descends(tree, from, head, path, n);
        assert forall|block: Hash256| #[trigger] on_the_way(tree, from, root, block) implies {
            &&& tree.is_descendant(block, head)
            &&& tree.is_descendant(rule.store.prev_slot_head, block)
            &&& tree.nodes[block].block.slot.0 / rule.slots_per_epoch != fc.current_slot.0
                / rule.slots_per_epoch
            &&& rule.one_confirmed(tree, fc, block, Ok(true))
        } by {
            let k = lemma_on_path(tree, from, head, path, n, block);
            lemma_path_descends(tree, from, head, path, k);
            assert(rule.prev_epoch_candidate(tree, fc, path[k]));
        }
    }
}

/// The child of a path's block on the way to the path's end is the path's next block.
proof fn lemma_next_on_path(
    tree: ProtoArrayView,
    from: Hash256,
    head: Hash256,
    path: Seq<Hash256>,
    n: int,
    next: Hash256,
)
    requires
        tree.valid(),
        canonical_roots(tree, from, head) == Some(path),
        0 <= n < path.len(),
        tree.nodes.contains_key(next),
        tree.nodes[next].block.parent_root == Some(path[n]),
        tree.is_descendant(next, head),
    ensures
        n + 1 < path.len(),
        path[n + 1] == next,
{
    let line = tree.lineage(head);
    let i = line.index_of(from);
    assert(line[i] == from);
    assert(path[n] == line[i - n]);
    let j = line.index_of(next);
    assert(line[j] == next);
    tree.lemma_lineage_end(head);
    if j == line.len() - 1 {
        assert(line.last() == next);
    }
    tree.lemma_lineage_parent(head, j);
    if j + 1 < i - n {
        tree.lemma_lineage_slots(head, j + 1, i - n);
    } else if i - n < j + 1 {
        tree.lemma_lineage_slots(head, i - n, j + 1);
    }
    assert(path[n + 1] == line[i - n - 1]);
}

/// Where the previous epoch is open for sure, going through it ends at the head, or before a block
/// of the current epoch, one that does not come after the previous slot's head, or one that may
/// lack the votes. It fails only where the check of a block can fail.
pub proof fn law_open_previous_epoch_is_gone_through<S: StateProvider>(
    rule: Rule<S>,
    tree: ProtoArrayView,
    fc: ForkChoiceStore,
    from: Hash256,
    head: Hash256,
    out: Option<Hash256>,
    next: Hash256,
)
    requires
        tree.valid(),
        tree.is_descendant(from, head),
        tree.nodes[from].block.slot.0 / rule.slots_per_epoch + 1 == fc.current_slot.0
            / rule.slots_per_epoch,
        surely_voted_lately(rule, tree, fc, rule.store.prev_slot_head),
        can_move(rule, tree, fc, head),
        fc.current_slot.0 % rule.slots_per_epoch == 0 || forall|conflict: Result<bool, Error>|
            #[trigger]
            rule.no_conflict(tree, fc, head, conflict) ==> conflict == Ok::<bool, Error>(true),
        rule.through_previous_epoch(tree, fc, from, head, out),
    ensures
        out matches Some(root) ==> (tree.nodes.contains_key(next)
            && tree.nodes[next].block.parent_root == Some(root) && tree.is_descendant(next, head)
            ==> {
            ||| tree.nodes[next].block.slot.0 / rule.slots_per_epoch == fc.current_slot.0
                / rule.slots_per_epoch
            ||| !tree.is_descendant(rule.store.prev_slot_head, next)
            ||| rule.one_confirmed(tree, fc, next, Ok(false))
        }),
        out is None ==> exists|block: Hash256, error: Error|
            block != from && tree.is_descendant(from, block) && tree.is_descendant(block, head)
                && #[trigger] rule.one_confirmed(tree, fc, block, Err(error)),
{
    let prev = rule.store.prev_slot_head;
    let (source, conflict) = choose|source: Epoch, conflict: Result<bool, Error>|
        #![trigger
            rule.voting_source(tree, fc, prev, source),
            rule.no_conflict(tree, fc, head, conflict)]
        {
            &&& rule.voting_source(tree, fc, prev, source)
            &&& rule.no_conflict(tree, fc, head, conflict)
            &&& if rule.prev_epoch_open(tree, fc, head, source, conflict) {
                match canonical_roots(tree, from, head) {
                    Some(path) => exists|n: int| rule.prev_epoch_stop(tree, fc, path, n, out),
                    None => out == Some(from),
                }
            } else {
                out == Some(from)
            }
        };
    assert(rule.prev_epoch_open(tree, fc, head, source, conflict));
    let path = canonical_roots(tree, from, head)->0;
    let n = choose|n: int| rule.prev_epoch_stop(tree, fc, path, n, out);
    assert(rule.prev_epoch_stop(tree, fc, path, n, out));
    if out is Some {
        if tree.nodes.contains_key(next) && tree.nodes[next].block.parent_root == out
            && tree.is_descendant(next, head) {
            lemma_next_on_path(tree, from, head, path, n, next);
        }
    } else {
        lemma_failing_block(tree, from, head, path, n + 1);
        let error = choose|error: Error| rule.one_confirmed(tree, fc, path[n + 1], Err(error));
        assert(rule.one_confirmed(tree, fc, path[n + 1], Err(error)));
    }
}

/// A later block of a path comes after the path's first one, and is another block.
proof fn lemma_failing_block(
    tree: ProtoArrayView,
    from: Hash256,
    head: Hash256,
    path: Seq<Hash256>,
    n: int,
)
    requires
        tree.valid(),
        tree.known(from),
        canonical_roots(tree, from, head) == Some(path),
        1 <= n < path.len(),
    ensures
        path[n] != from,
        tree.is_descendant(from, path[n]),
        tree.is_descendant(path[n], head),
{
    lemma_path_descends(tree, from, head, path, n);
    let line = tree.lineage(head);
    let i = line.index_of(from);
    assert(line[i] == from);
    assert(path[n] == line[i - n]);
    tree.lemma_lineage_slots(head, i - n, i);
}

/// A step of the search into a later epoch is taken only if the block that it leads to, as the
/// checkpoint of that epoch, will be justified. Every block that the search comes to has the
/// votes.
pub proof fn law_epochs_are_entered_with_justification<S: StateProvider>(
    rule: Rule<S>,
    tree: ProtoArrayView,
    fc: ForkChoiceStore,
    from: Hash256,
    head: Hash256,
    root: Hash256,
    block: Hash256,
)
    requires
        tree.valid(),
        tree.nodes.contains_key(from),
        rule.through_current_epoch(tree, fc, from, head, Some(root)),
        on_the_way(tree, from, root, block),
    ensures
        tree.nodes.contains_key(block),
        tree.nodes[block].block.parent_root is Some,
        rule.one_confirmed(tree, fc, block, Ok(true)),
        ({
            let parent = tree.nodes[block].block.parent_root->0;
            let epoch = tree.nodes[block].block.slot.0 / rule.slots_per_epoch;
            tree.nodes.contains_key(parent) && tree.nodes[parent].block.slot.0
                / rule.slots_per_epoch < epoch ==> rule.will_be_justified(
                tree,
                fc,
                Checkpoint { epoch: Epoch(epoch), root: block },
                Ok(true),
            )
        }),
{
    lemma_current_epoch_step(rule, tree, fc, from, head, root);
    lemma_checkpoint_block_of_its_own_epoch(tree, rule.slots_per_epoch, block);
}

/// The walk towards the head ends at the head, or before a block that may lack the votes, or that
/// would open a later epoch and may not be justified as its checkpoint. It fails only where the
/// check of a block can fail.
pub proof fn law_walk_goes_as_far_as_it_can<S: StateProvider>(
    rule: Rule<S>,
    tree: ProtoArrayView,
    fc: ForkChoiceStore,
    from: Hash256,
    head: Hash256,
    out: Option<Hash256>,
    next: Hash256,
)
    requires
        tree.valid(),
        tree.is_descendant(from, head),
        rule.tentative(tree, fc, from, head, out),
    ensures
        out matches Some(root) ==> (tree.nodes.contains_key(next)
            && tree.nodes[next].block.parent_root == Some(root) && tree.is_descendant(next, head)
            ==> {
            let epoch = tree.nodes[next].block.slot.0 / rule.slots_per_epoch;
            ||| rule.one_confirmed(tree, fc, next, Ok(false))
            ||| tree.nodes[root].block.slot.0 / rule.slots_per_epoch < epoch && exists|
                outcome: Result<bool, Error>,
            |
                outcome != Ok::<bool, Error>(true) && #[trigger] rule.will_be_justified(
                    tree,
                    fc,
                    Checkpoint { epoch: Epoch(epoch), root: next },
                    outcome,
                )
        }),
        out is None ==> exists|block: Hash256, error: Error|
            block != from && tree.is_descendant(from, block) && tree.is_descendant(block, head)
                && #[trigger] rule.one_confirmed(tree, fc, block, Err(error)),
{
    let path = canonical_roots(tree, from, head)->0;
    let n = choose|n: int| rule.current_epoch_stop(tree, fc, path, n, out);
    assert(rule.current_epoch_stop(tree, fc, path, n, out));
    if out is Some {
        if tree.nodes.contains_key(next) && tree.nodes[next].block.parent_root == out
            && tree.is_descendant(next, head) {
            lemma_next_on_path(tree, from, head, path, n, next);
            lemma_checkpoint_block_of_its_own_epoch(tree, rule.slots_per_epoch, next);
            lemma_path_descends(tree, from, head, path, n);
        }
    } else {
        lemma_failing_block(tree, from, head, path, n + 1);
        let error = choose|error: Error| rule.one_confirmed(tree, fc, path[n + 1], Err(error));
        assert(rule.one_confirmed(tree, fc, path[n + 1], Err(error)));
    }
}

/// Where the search can move on, it takes up the block that its walk ends at exactly if that is
/// safe: a block of the current epoch if the votes for it are recent; a block of an earlier epoch
/// in the first slot of an epoch, if no conflicting checkpoint will be justified.
pub proof fn law_safe_blocks_are_taken_up<S: StateProvider>(
    rule: Rule<S>,
    tree: ProtoArrayView,
    fc: ForkChoiceStore,
    from: Hash256,
    head: Hash256,
    root: Hash256,
    out: Option<Hash256>,
)
    requires
        can_move(rule, tree, fc, head),
        tree.nodes.contains_key(root),
        forall|other: Option<Hash256>| #[trigger]
            rule.tentative(tree, fc, from, head, other) ==> other == Some(root),
        rule.through_current_epoch(tree, fc, from, head, out),
    ensures
        out == Some(root) || out == Some(from),
        ({
            let in_current_epoch = tree.nodes[root].block.slot.0 / rule.slots_per_epoch
                == fc.current_slot.0 / rule.slots_per_epoch;
            let at_start = fc.current_slot.0 % rule.slots_per_epoch == 0;
            &&& in_current_epoch && surely_voted_lately(rule, tree, fc, root) ==> out == Some(root)
            &&& in_current_epoch && !voted_lately(rule, tree, fc, root) ==> out == Some(from)
            &&& !in_current_epoch && at_start && (forall|conflict: Result<bool, Error>| #[trigger]
                rule.no_conflict(tree, fc, head, conflict) ==> conflict == Ok::<bool, Error>(true))
                ==> out == Some(root)
            &&& !in_current_epoch && !rule.no_conflict(tree, fc, head, Ok(true)) ==> out == Some(
                from,
            )
            &&& !in_current_epoch && !at_start ==> out == Some(from)
        }),
{
    let tentative = choose|tentative: Option<Hash256>|
        {
            &&& #[trigger] rule.tentative(tree, fc, from, head, tentative)
            &&& match tentative {
                None => out is None,
                Some(root) => {
                    ||| out == Some(root) && rule.safe_to_advance(tree, fc, head, root, true)
                    ||| out == Some(from) && rule.safe_to_advance(tree, fc, head, root, false)
                },
            }
        };
    assert(tentative == Some(root));
}

/// What it takes for the search to come to another block. One of the current epoch has recent
/// votes behind it. For one of an earlier epoch, either the slot is the first of its epoch and no
/// conflicting checkpoint will be justified; or the search began in the previous epoch, the block
/// comes after the previous slot's head or is it, and recent votes are behind that head.
pub proof fn law_what_a_move_rests_on<S: StateProvider>(
    rule: Rule<S>,
    tree: ProtoArrayView,
    fc: ForkChoiceStore,
    confirmed: Hash256,
    head: Hash256,
    root: Hash256,
)
    requires
        tree.valid(),
        rule.latest_descendant(tree, fc, confirmed, head, Some(root)),
        root != confirmed,
    ensures
        can_move(rule, tree, fc, head),
        tree.nodes[root].block.slot.0 / rule.slots_per_epoch == fc.current_slot.0
            / rule.slots_per_epoch ==> voted_lately(rule, tree, fc, root),
        tree.nodes[root].block.slot.0 / rule.slots_per_epoch != fc.current_slot.0
            / rule.slots_per_epoch ==> {
            let epoch = tree.nodes[confirmed].block.slot.0 / rule.slots_per_epoch;
            let at_start = fc.current_slot.0 % rule.slots_per_epoch == 0;
            ||| at_start && rule.no_conflict(tree, fc, head, Ok(true))
            ||| {
                &&& epoch < u64::MAX ==> epoch + 1 == fc.current_slot.0 / rule.slots_per_epoch
                &&& tree.is_descendant(rule.store.prev_slot_head, root)
                &&& voted_lately(rule, tree, fc, rule.store.prev_slot_head)
                &&& at_start || rule.no_conflict(tree, fc, head, Ok(true))
            }
        },
{
    let mid = lemma_stretches(rule, tree, fc, confirmed, head, root);
    lemma_previous_epoch_step(rule, tree, fc, confirmed, head, mid);
    lemma_current_epoch_step(rule, tree, fc, mid, head, root);
    if root == mid {
        law_previous_epoch_is_left_with_care(rule, tree, fc, confirmed, head, Some(root));
        assert(on_the_way(tree, confirmed, root, root));
    } else {
        assert(rule.safe_to_advance(tree, fc, head, root, true));
        assert(can_move(rule, tree, fc, head));
    }
}

/// The search comes to nothing only from a block that is not known, or where the check of a block
/// between it and the head can fail.
pub proof fn law_search_fails_with_a_check_only<S: StateProvider>(
    rule: Rule<S>,
    tree: ProtoArrayView,
    fc: ForkChoiceStore,
    confirmed: Hash256,
    head: Hash256,
)
    requires
        tree.valid(),
        rule.latest_descendant(tree, fc, confirmed, head, None),
        tree.nodes.contains_key(confirmed),
    ensures
        exists|block: Hash256, error: Error|
            block != confirmed && tree.is_descendant(confirmed, block) && tree.is_descendant(
                block,
                head,
            ) && #[trigger] rule.one_confirmed(tree, fc, block, Err(error)),
{
    let reached = choose|reached: Option<Hash256>|
        {
            &&& #[trigger] rule.through_previous_epoch(tree, fc, confirmed, head, reached)
            &&& match reached {
                None => true,
                Some(mid) => rule.through_current_epoch(tree, fc, mid, head, None),
            }
        };
    if let Some(mid) = reached {
        lemma_previous_epoch_step(rule, tree, fc, confirmed, head, mid);
        assert(rule.tentative(tree, fc, mid, head, None));
        let path = canonical_roots(tree, mid, head)->0;
        let n = choose|n: int| rule.current_epoch_stop(tree, fc, path, n, None);
        lemma_failing_block(tree, mid, head, path, n + 1);
        let block = path[n + 1];
        law_ancestors_of_ancestors(tree, block, mid, confirmed);
        if block == confirmed {
            law_no_two_blocks_precede_each_other(tree, block, mid);
        }
        tree.lemma_lineage_step(block);
        let error = choose|error: Error| rule.one_confirmed(tree, fc, block, Err(error));
        assert(rule.one_confirmed(tree, fc, block, Err(error)));
    } else {
        let path = canonical_roots(tree, confirmed, head)->0;
        let n = choose|n: int| rule.prev_epoch_stop(tree, fc, path, n, None);
        lemma_failing_block(tree, confirmed, head, path, n + 1);
        let error = choose|error: Error| rule.one_confirmed(tree, fc, path[n + 1], Err(error));
        assert(rule.one_confirmed(tree, fc, path[n + 1], Err(error)));
    }
}

/// Where the previous epoch is open for sure, a search that begins there does not end before a
/// block of that epoch that comes after the previous slot's head, unless the block may lack the
/// votes.
pub proof fn law_previous_epoch_is_caught_up<S: StateProvider>(
    rule: Rule<S>,
    tree: ProtoArrayView,
    fc: ForkChoiceStore,
    confirmed: Hash256,
    head: Hash256,
    root: Hash256,
    next: Hash256,
)
    requires
        tree.valid(),
        rule.slots_per_epoch > 0,
        tree.is_descendant(confirmed, head),
        tree.nodes[confirmed].block.slot.0 / rule.slots_per_epoch + 1 == fc.current_slot.0
            / rule.slots_per_epoch,
        surely_voted_lately(rule, tree, fc, rule.store.prev_slot_head),
        can_move(rule, tree, fc, head),
        fc.current_slot.0 % rule.slots_per_epoch == 0 || forall|conflict: Result<bool, Error>|
            #[trigger]
            rule.no_conflict(tree, fc, head, conflict) ==> conflict == Ok::<bool, Error>(true),
        rule.latest_descendant(tree, fc, confirmed, head, Some(root)),
        tree.nodes.contains_key(next),
        tree.nodes[next].block.parent_root == Some(root),
        tree.is_descendant(next, head),
        tree.nodes[next].block.slot.0 / rule.slots_per_epoch + 1 == fc.current_slot.0
            / rule.slots_per_epoch,
        tree.is_descendant(rule.store.prev_slot_head, next),
    ensures
        rule.one_confirmed(tree, fc, next, Ok(false)),
{
    let mid = lemma_stretches(rule, tree, fc, confirmed, head, root);
    lemma_previous_epoch_step(rule, tree, fc, confirmed, head, mid);
    lemma_current_epoch_step(rule, tree, fc, mid, head, root);
    if root == mid {
        law_open_previous_epoch_is_gone_through(
            rule,
            tree,
            fc,
            confirmed,
            head,
            Some(root),
            next,
        );
    } else {
        assert(tree.is_descendant(mid, head)) by {
            if mid != confirmed {
                assert(on_the_way(tree, confirmed, mid, mid));
            }
        }
        law_walk_goes_as_far_as_it_can(rule, tree, fc, mid, head, Some(root), next);
        law_ancestors_of_ancestors(tree, root, mid, confirmed);
        if root != confirmed {
            law_ancestors_lie_in_earlier_slots(tree, root, confirmed);
        }
        lemma_div_is_ordered(
            tree.slot(confirmed).0 as int,
            tree.slot(root).0 as int,
            rule.slots_per_epoch as int,
        );
    }
}

/// Between two blocks of one epoch on a path, no step leads into a later epoch.
proof fn lemma_steps_within_an_epoch<S: StateProvider>(
    rule: Rule<S>,
    tree: ProtoArrayView,
    fc: ForkChoiceStore,
    from: Hash256,
    head: Hash256,
    path: Seq<Hash256>,
    n: int,
)
    requires
        tree.valid(),
        rule.slots_per_epoch > 0,
        tree.known(from),
        tree.known(head),
        tree.slot(from).0 / rule.slots_per_epoch == tree.slot(head).0 / rule.slots_per_epoch,
        canonical_roots(tree, from, head) == Some(path),
        0 <= n,
        n + 1 < path.len(),
    ensures
        on_the_way(tree, from, head, path[n + 1]),
        !rule.step_allowed(tree, fc, path[n], path[n + 1], false),
{
    let here = path[n];
    let next = path[n + 1];
    let spe = rule.slots_per_epoch as int;
    lemma_failing_block(tree, from, head, path, n + 1);
    lemma_path_descends(tree, from, head, path, n);
    lemma_path_descends(tree, from, head, path, n + 1);
    if here != from {
        law_ancestors_lie_in_earlier_slots(tree, here, from);
    }
    if here != head {
        law_ancestors_lie_in_earlier_slots(tree, head, here);
    }
    if next != head {
        law_ancestors_lie_in_earlier_slots(tree, head, next);
    }
    law_ancestors_lie_in_earlier_slots(tree, next, from);
    lemma_div_is_ordered(tree.slot(from).0 as int, tree.slot(here).0 as int, spe);
    lemma_div_is_ordered(tree.slot(here).0 as int, tree.slot(head).0 as int, spe);
    lemma_div_is_ordered(tree.slot(from).0 as int, tree.slot(next).0 as int, spe);
    lemma_div_is_ordered(tree.slot(next).0 as int, tree.slot(head).0 as int, spe);
}

/// A search that begins in the current epoch does not go through the previous one.
proof fn lemma_search_in_current_epoch<S: StateProvider>(
    rule: Rule<S>,
    tree: ProtoArrayView,
    fc: ForkChoiceStore,
    confirmed: Hash256,
    head: Hash256,
    out: Option<Hash256>,
)
    requires
        rule.slots_per_epoch > 1,
        tree.known(confirmed),
        tree.slot(confirmed).0 / rule.slots_per_epoch == fc.current_slot.0 / rule.slots_per_epoch,
        rule.latest_descendant(tree, fc, confirmed, head, out),
    ensures
        rule.through_current_epoch(tree, fc, confirmed, head, out),
{
    let spe = rule.slots_per_epoch;
    assert(fc.current_slot.0 / spe < u64::MAX) by (nonlinear_arith)
        requires
            spe > 1,
            fc.current_slot.0 <= u64::MAX,
    ;
}

/// Within the current epoch, a chain that has all its votes is confirmed up to the head: if the
/// search can move on, the votes for the head are recent, and every block between the start and
/// the head has the votes for sure, then the search ends at the head.
pub proof fn law_fully_voted_chain_is_confirmed<S: StateProvider>(
    rule: Rule<S>,
    tree: ProtoArrayView,
    fc: ForkChoiceStore,
    confirmed: Hash256,
    head: Hash256,
    out: Option<Hash256>,
)
    requires
        tree.valid(),
        rule.slots_per_epoch > 1,
        tree.is_descendant(confirmed, head),
        tree.nodes.contains_key(head),
        tree.nodes[confirmed].block.slot.0 / rule.slots_per_epoch == fc.current_slot.0
            / rule.slots_per_epoch,
        tree.nodes[head].block.slot.0 / rule.slots_per_epoch == fc.current_slot.0
            / rule.slots_per_epoch,
        can_move(rule, tree, fc, head),
        surely_voted_lately(rule, tree, fc, head),
        forall|block: Hash256, outcome: Result<bool, Error>|
            on_the_way(tree, confirmed, head, block) && #[trigger] rule.one_confirmed(
                tree,
                fc,
                block,
                outcome,
            ) ==> outcome == Ok::<bool, Error>(true),
        rule.latest_descendant(tree, fc, confirmed, head, out),
    ensures
        out == Some(head),
{
    lemma_search_in_current_epoch(rule, tree, fc, confirmed, head, out);
    let path = canonical_roots(tree, confirmed, head)->0;
    lemma_canonical_roots(tree, confirmed, head);
    assert forall|other: Option<Hash256>| #[trigger]
        rule.tentative(tree, fc, confirmed, head, other) implies other == Some(head) by {
        let n = choose|n: int| rule.current_epoch_stop(tree, fc, path, n, other);
        assert(rule.current_epoch_stop(tree, fc, path, n, other));
        if n + 1 < path.len() {
            lemma_steps_within_an_epoch(rule, tree, fc, confirmed, head, path, n);
        } else {
            assert(path[n] == path.last());
        }
    }
    law_safe_blocks_are_taken_up(rule, tree, fc, confirmed, head, head, out);
}

/// The blocks of a path before its block `m` lie on the way to that one.
proof fn lemma_way_to_a_later_block(
    tree: ProtoArrayView,
    from: Hash256,
    head: Hash256,
    path: Seq<Hash256>,
    k: int,
    m: int,
)
    requires
        tree.valid(),
        tree.known(from),
        tree.known(head),
        canonical_roots(tree, from, head) == Some(path),
        1 <= k < m < path.len(),
    ensures
        on_the_way(tree, from, path[m], path[k]),
        path[k] != path[m],
{
    lemma_path_order(tree, from, head, path, k, m);
    lemma_failing_block(tree, from, head, path, k);
    lemma_failing_block(tree, from, head, path, m);
    law_ancestors_form_a_chain(tree, head, path[k], path[m]);
}

/// A walk within one epoch fails at a block whose check fails for sure, if every block before it
/// has the votes for sure.
#[verifier::spinoff_prover]
proof fn lemma_walk_fails<S: StateProvider>(
    rule: Rule<S>,
    tree: ProtoArrayView,
    fc: ForkChoiceStore,
    from: Hash256,
    head: Hash256,
    path: Seq<Hash256>,
    m: int,
    n: int,
    out: Option<Hash256>,
)
    requires
        tree.valid(),
        rule.slots_per_epoch > 0,
        tree.known(from),
        tree.known(head),
        tree.slot(from).0 / rule.slots_per_epoch == tree.slot(head).0 / rule.slots_per_epoch,
        canonical_roots(tree, from, head) == Some(path),
        1 <= m < path.len(),
        forall|block: Hash256, outcome: Result<bool, Error>|
            on_the_way(tree, from, path[m], block) && block != path[m] && #[trigger]
            rule.one_confirmed(tree, fc, block, outcome) ==> outcome == Ok::<bool, Error>(true),
        forall|outcome: Result<bool, Error>| #[trigger]
            rule.one_confirmed(tree, fc, path[m], outcome) ==> outcome is Err,
        rule.current_epoch_stop(tree, fc, path, n, out),
    ensures
        out is None,
{
    if n >= m {
        assert(rule.one_confirmed(tree, fc, path[m], Ok(true)));
    } else {
        lemma_steps_within_an_epoch(rule, tree, fc, from, head, path, n);
        if n + 1 < m {
            lemma_way_to_a_later_block(tree, from, head, path, n + 1, m);
        }
        assert(!rule.one_confirmed(tree, fc, path[n + 1], Ok(false)));
    }
}

/// Within the current epoch, a search that can move on comes to nothing if the check of a block
/// fails for sure, and every block between the start and that one has the votes for sure.
#[verifier::spinoff_prover]
pub proof fn law_failing_check_ends_the_search<S: StateProvider>(
    rule: Rule<S>,
    tree: ProtoArrayView,
    fc: ForkChoiceStore,
    confirmed: Hash256,
    head: Hash256,
    failing: Hash256,
    out: Option<Hash256>,
)
    requires
        tree.valid(),
        rule.slots_per_epoch > 1,
        tree.is_descendant(confirmed, head),
        tree.nodes.contains_key(head),
        tree.nodes[confirmed].block.slot.0 / rule.slots_per_epoch == fc.current_slot.0
            / rule.slots_per_epoch,
        tree.nodes[head].block.slot.0 / rule.slots_per_epoch == fc.current_slot.0
            / rule.slots_per_epoch,
        can_move(rule, tree, fc, head),
        on_the_way(tree, confirmed, head, failing),
        forall|block: Hash256, outcome: Result<bool, Error>|
            on_the_way(tree, confirmed, failing, block) && block != failing && #[trigger]
            rule.one_confirmed(tree, fc, block, outcome) ==> outcome == Ok::<bool, Error>(true),
        forall|outcome: Result<bool, Error>| #[trigger]
            rule.one_confirmed(tree, fc, failing, outcome) ==> outcome is Err,
        rule.latest_descendant(tree, fc, confirmed, head, out),
    ensures
        out is None,
{
    lemma_search_in_current_epoch(rule, tree, fc, confirmed, head, out);
    let path = canonical_roots(tree, confirmed, head)->0;
    lemma_canonical_roots(tree, confirmed, head);
    assert(path[path.len() - 1] == path.last());
    let m = lemma_on_path(tree, confirmed, head, path, path.len() - 1, failing);
    assert forall|other: Option<Hash256>| #[trigger]
        rule.tentative(tree, fc, confirmed, head, other) implies other is None by {
        let n = choose|n: int| rule.current_epoch_stop(tree, fc, path, n, other);
        lemma_walk_fails(rule, tree, fc, confirmed, head, path, m, n, other);
    }
}

/// Slots rise along a path.
proof fn lemma_path_order(
    tree: ProtoArrayView,
    from: Hash256,
    head: Hash256,
    path: Seq<Hash256>,
    i: int,
    j: int,
)
    requires
        tree.valid(),
        tree.known(from),
        canonical_roots(tree, from, head) == Some(path),
        0 <= i < j < path.len(),
    ensures
        tree.slot(path[i]).0 < tree.slot(path[j]).0,
        path[i] != path[j],
{
    let line = tree.lineage(head);
    let at = line.index_of(from);
    assert(line[at] == from);
    assert(path[i] == line[at - i]);
    assert(path[j] == line[at - j]);
    tree.lemma_lineage_slots(head, at - j, at - i);
    lemma_path_descends(tree, from, head, path, i);
}

} // verus!
