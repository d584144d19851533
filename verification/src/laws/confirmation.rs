//! What a confirmed block has behind it, and where the search for one can lead.

use crate::committee_weight::{cap, committee_weight, ffg_weight_till_slot};
use crate::config::FastConfirmationConfig;
use crate::error::Error;
use crate::fork_choice_store::ForkChoiceStore;
use crate::laws::ancestry::{
    law_ancestors_form_a_chain, law_ancestors_lie_in_earlier_slots, law_ancestors_of_ancestors,
    law_no_two_blocks_precede_each_other,
};
use crate::laws::weights::{
    law_checkpoint_support_is_bounded, law_ffg_weight_is_a_part, law_honest_weight_is_monotone,
    law_inequality_is_monotone, law_inequality_takes_a_majority,
};
use crate::proto_array::{weight, ProtoArrayView};
use crate::rule::{is_ancestor, proposer_score_delta, vote_window, weighting_balance, Rule};
use crate::state_provider::{may_find, CheckpointState, StateProvider};
use crate::types::{sat_add, Checkpoint, Epoch, Hash256, Slot};
use crate::votes::{
    canonical_roots, checkpoint_block, checkpoint_support, epoch_support, latest_in_epoch,
    lemma_canonical_roots,
};
use vstd::arithmetic::div_mod::lemma_div_is_ordered;
use vstd::prelude::*;

verus! {

/// The first block of the tree is never confirmed by votes.
pub proof fn law_first_block_is_not_confirmed<S: StateProvider>(
    rule: Rule<S>,
    tree: ProtoArrayView,
    fc: ForkChoiceStore,
    root: Hash256,
    state: Option<CheckpointState>,
)
    requires
        tree.known(root),
        tree.block(root).parent_root is None,
    ensures
        rule.q_indicator(tree, fc, root, state) == Ok::<bool, Error>(false),
{
}

/// A block is not confirmed as long as no slot after its parent's is over: there are no votes for
/// it yet.
pub proof fn law_no_confirmation_before_votes<S: StateProvider>(
    rule: Rule<S>,
    tree: ProtoArrayView,
    fc: ForkChoiceStore,
    root: Hash256,
    parent: Hash256,
    state: Option<CheckpointState>,
)
    requires
        tree.known(root),
        tree.block(root).parent_root == Some(parent),
        tree.known(parent),
        fc.current_slot.0 <= sat_add(tree.slot(parent).0, 1),
    ensures
        rule.q_indicator(tree, fc, root, state) != Ok::<bool, Error>(true),
{
}

/// A confirmed block has the votes of more than half of the committee that could have voted for
/// it.
pub proof fn law_confirmed_block_has_a_majority<S: StateProvider>(
    rule: Rule<S>,
    tree: ProtoArrayView,
    fc: ForkChoiceStore,
    root: Hash256,
    state: Option<CheckpointState>,
)
    requires
        rule.slots_per_epoch > 0,
        rule.q_indicator(tree, fc, root, state) == Ok::<bool, Error>(true),
    ensures
        ({
            let (start, end) = vote_window(tree, fc, tree.block(root).parent_root->0);
            &&& weight(tree, root, false) is Some
            &&& 2 * weight(tree, root, false)->0 > committee_weight(
                start,
                end,
                weighting_balance(fc, state),
                rule.slots_per_epoch,
            )
            &&& weight(tree, root, false)->0 > 0
        }),
{
    let support = weight(tree, root, false)->0;
    let (start, end) = vote_window(tree, fc, tree.block(root).parent_root->0);
    let total = weighting_balance(fc, state);
    let committee = committee_weight(start, end, total, rule.slots_per_epoch);
    lemma_committee_is_not_negative(start, end, total, rule.slots_per_epoch);
    law_inequality_takes_a_majority(
        support as int,
        committee,
        proposer_score_delta(tree, root, support),
        rule.config.beta_percentage as int,
    );
}

/// A block that is confirmed under some byzantine threshold is confirmed under every lower one.
pub proof fn law_lower_threshold_confirms_more<S: StateProvider>(
    rule: Rule<S>,
    lower: FastConfirmationConfig,
    tree: ProtoArrayView,
    fc: ForkChoiceStore,
    root: Hash256,
    state: Option<CheckpointState>,
)
    requires
        rule.slots_per_epoch > 0,
        lower.beta_percentage <= rule.config.beta_percentage,
        rule.q_indicator(tree, fc, root, state) == Ok::<bool, Error>(true),
    ensures
        (Rule { config: lower, ..rule }).q_indicator(tree, fc, root, state) == Ok::<bool, Error>(
            true,
        ),
{
    let support = weight(tree, root, false)->0;
    let (start, end) = vote_window(tree, fc, tree.block(root).parent_root->0);
    let total = weighting_balance(fc, state);
    let committee = committee_weight(start, end, total, rule.slots_per_epoch);
    let score = proposer_score_delta(tree, root, support);
    lemma_committee_is_not_negative(start, end, total, rule.slots_per_epoch);
    law_inequality_is_monotone(
        support as int,
        committee,
        score,
        rule.config.beta_percentage as int,
        support as int,
        committee,
        score,
        lower.beta_percentage as int,
    );
}

proof fn lemma_committee_is_not_negative(
    start: Slot,
    end: Slot,
    total: u64,
    slots_per_epoch: u64,
)
    requires
        slots_per_epoch > 0,
    ensures
        committee_weight(start, end, total, slots_per_epoch) >= 0,
{
    let share = total / slots_per_epoch;
    let covered = end.0 - start.0 + 1;
    if covered >= 0 {
        assert(share * covered >= 0) by (nonlinear_arith)
            requires
                share >= 0,
                covered >= 0,
        ;
    }
    let in_end = end.0 % slots_per_epoch + 1;
    let in_start = slots_per_epoch - start.0 % slots_per_epoch;
    let left = slots_per_epoch - in_end % slots_per_epoch as int;
    let small = share / slots_per_epoch;
    assert(share * in_end >= 0) by (nonlinear_arith)
        requires
            share >= 0,
            in_end >= 0,
    ;
    assert(small * in_start >= 0) by (nonlinear_arith)
        requires
            small >= 0,
            in_start >= 0,
    ;
    let part = small * in_start;
    assert(part * left >= 0) by (nonlinear_arith)
        requires
            part >= 0,
            left >= 0,
    ;
}

/// A checkpoint that will be justified has no conflicting one beside it that will be: two thirds
/// of the stake are more than one third.
pub proof fn law_justified_leaves_no_conflict<S: StateProvider>(
    rule: Rule<S>,
    tree: ProtoArrayView,
    fc: ForkChoiceStore,
    checkpoint: Checkpoint,
    state: Option<CheckpointState>,
)
    requires
        rule.reaches(tree, fc, checkpoint, state, 2) == Ok::<bool, Error>(true),
    ensures
        rule.reaches(tree, fc, checkpoint, state, 1) == Ok::<bool, Error>(true),
{
}

/// A checkpoint that reaches its share of the stake under some thresholds reaches it under all
/// lower ones.
pub proof fn law_lower_thresholds_justify_more<S: StateProvider>(
    rule: Rule<S>,
    lower: FastConfirmationConfig,
    tree: ProtoArrayView,
    fc: ForkChoiceStore,
    checkpoint: Checkpoint,
    state: Option<CheckpointState>,
    share: int,
)
    requires
        rule.slots_per_epoch > 0,
        lower.beta_percentage <= rule.config.beta_percentage <= 100,
        lower.slashing_percentage <= rule.config.slashing_percentage,
        rule.reaches(tree, fc, checkpoint, state, share) == Ok::<bool, Error>(true),
    ensures
        (Rule { config: lower, ..rule }).reaches(tree, fc, checkpoint, state, share) == Ok::<
            bool,
            Error,
        >(true),
{
    let total = state->0.total_active_balance->0;
    let validators = state->0.validators@;
    let epoch = rule.current_epoch(fc);
    let n = validators.len() as int;
    law_ffg_weight_is_a_part(fc.current_slot, epoch, total, rule.slots_per_epoch);
    law_checkpoint_support_is_bounded(tree, checkpoint, validators, n);
    let support = cap(checkpoint_support(tree, checkpoint, validators, n));
    law_honest_weight_is_monotone(
        total as int,
        ffg_weight_till_slot(fc.current_slot, epoch, total, rule.slots_per_epoch),
        support,
        rule.config.beta_percentage as int,
        rule.config.slashing_percentage as int,
        support,
        lower.beta_percentage as int,
        lower.slashing_percentage as int,
    );
    assert((Rule { config: lower, ..rule }).honest_support(
        tree,
        fc,
        checkpoint,
        state->0,
        total,
    ) >= rule.honest_support(tree, fc, checkpoint, state->0, total));
}

/// A provider without a state at hand makes the rule cautious: no checkpoint is expected to be
/// justified but those that already are, and no conflict is ruled out.
pub proof fn law_without_states_nothing_new_is_justified<S: StateProvider>(
    rule: Rule<S>,
    tree: ProtoArrayView,
    fc: ForkChoiceStore,
    checkpoint: Checkpoint,
    head: Hash256,
)
    requires
        forall|asked: Checkpoint, state: Option<CheckpointState>| #[trigger]
            may_find(&rule.provider, asked, state) ==> state is None,
    ensures
        rule.will_be_justified(tree, fc, checkpoint, Ok(true)) ==> checkpoint
            == fc.justified_checkpoint || checkpoint == fc.unrealized_justified_checkpoint,
        !rule.no_conflict(tree, fc, head, Ok(true)),
{
}

/// The epoch of most votes is the fallback where there are no votes, and any two epochs that can
/// come out have the same balance behind them.
pub proof fn law_voting_sources_are_equally_supported<S: StateProvider>(
    rule: Rule<S>,
    tree: ProtoArrayView,
    fc: ForkChoiceStore,
    root: Hash256,
    source: Epoch,
    other: Epoch,
)
    requires
        rule.voting_source(tree, fc, root, source),
    ensures
        ({
            let balances = fc.justified_balances.effective_balances@;
            let n = balances.len() as int;
            &&& epoch_support(tree, balances, root, source, n) == 0 ==> source
                == rule.store.prev_slot_unrealized_justified_checkpoint.epoch
            &&& rule.voting_source(tree, fc, root, other) ==> epoch_support(
                tree,
                balances,
                root,
                source,
                n,
            ) == epoch_support(tree, balances, root, other, n)
        }),
{
}

/// Every block of a path of canonical roots comes after the path's first one.
pub(crate) proof fn lemma_path_descends(
    tree: ProtoArrayView,
    from: Hash256,
    head: Hash256,
    path: Seq<Hash256>,
    n: int,
)
    requires
        tree.valid(),
        tree.known(from),
        canonical_roots(tree, from, head) == Some(path),
        0 <= n < path.len(),
    ensures
        path[0] == from,
        tree.known(path[n]),
        is_ancestor(tree, path[n], from),
        tree.is_descendant(path[n], head),
    decreases n,
{
    lemma_canonical_roots(tree, from, head);
    if n > 0 {
        lemma_path_descends(tree, from, head, path, n - 1);
        tree.lemma_lineage_step(path[n]);
        tree.lemma_lineage_step(path[n - 1]);
        assert(tree.lineage(path[n])[1] == path[n - 1]);
        assert(tree.lineage(path[n]).contains(path[n - 1]));
        law_ancestors_of_ancestors(tree, path[n], path[n - 1], from);
    } else {
        assert(path[0] == path.first());
    }
}

/// Whether `block` lies on the way from `from` to `root`: it comes after `from`, and is `root` or
/// comes before it.
pub open spec fn on_the_way(
    tree: ProtoArrayView,
    from: Hash256,
    root: Hash256,
    block: Hash256,
) -> bool {
    block != from && is_ancestor(tree, block, from) && is_ancestor(tree, root, block)
}

/// The blocks on the way from the first block of a path to its block `n` stand on the path.
pub(crate) proof fn lemma_on_path(
    tree: ProtoArrayView,
    from: Hash256,
    head: Hash256,
    path: Seq<Hash256>,
    n: int,
    block: Hash256,
) -> (k: int)
    requires
        tree.valid(),
        tree.known(from),
        canonical_roots(tree, from, head) == Some(path),
        0 <= n < path.len(),
        on_the_way(tree, from, path[n], block),
    ensures
        1 <= k <= n,
        path[k] == block,
{
    let line = tree.lineage(head);
    let i = line.index_of(from);
    assert(line[i] == from);
    let here = i - n;
    assert(path[n] == line[here]);
    tree.lemma_lineage_suffix(head, here);
    tree.lemma_lineage_step(path[n]);
    assert(tree.lineage(path[n]).contains(block)) by {
        assert(tree.lineage(path[n])[0] == path[n]);
    }
    let m = tree.lineage(path[n]).index_of(block);
    assert(tree.lineage(path[n])[m] == block);
    let at = here + m;
    assert(line.skip(here)[m] == line[at]);
    tree.lemma_lineage_suffix(head, at);
    let j = tree.lineage(block).index_of(from);
    assert(tree.lineage(block)[j] == from);
    assert(line.skip(at)[j] == line[at + j]);
    if at + j < i {
        tree.lemma_lineage_slots(head, at + j, i);
    } else if i < at + j {
        tree.lemma_lineage_slots(head, i, at + j);
    }
    assert(path[i - at] == line[at]);
    i - at
}

/// Going through the previous epoch leads to the start or to a later block on the head's chain.
/// Every block on the way has the votes, and none is of the current epoch.
pub(crate) proof fn lemma_previous_epoch_step<S: StateProvider>(
    rule: Rule<S>,
    tree: ProtoArrayView,
    fc: ForkChoiceStore,
    from: Hash256,
    head: Hash256,
    root: Hash256,
)
    requires
        tree.valid(),
        tree.known(from),
        rule.through_previous_epoch(tree, fc, from, head, Some(root)),
    ensures
        tree.known(root),
        is_ancestor(tree, root, from),
        forall|block: Hash256| #[trigger]
            on_the_way(tree, from, root, block) ==> tree.is_descendant(block, head)
                && rule.one_confirmed(tree, fc, block, Ok(true)) && rule.block_epoch(tree, block)
                != rule.current_epoch(fc),
{
    if root != from {
        let path = canonical_roots(tree, from, head)->0;
        let n = choose|n: int| rule.prev_epoch_stop(tree, fc, path, n, Some(root));
        lemma_path_descends(tree, from, head, path, n);
        assert(path[n] == root);
        assert forall|block: Hash256| #[trigger] on_the_way(tree, from, root, block) implies tree.is_descendant(
            block,
            head,
        ) && rule.one_confirmed(tree, fc, block, Ok(true)) && rule.block_epoch(tree, block)
            != rule.current_epoch(fc) by {
            let k = lemma_on_path(tree, from, head, path, n, block);
            lemma_path_descends(tree, from, head, path, k);
            assert(rule.prev_epoch_candidate(tree, fc, path[k]));
        }
    } else {
        assert forall|block: Hash256| !on_the_way(tree, from, root, block) by {
            if on_the_way(tree, from, root, block) {
                law_no_two_blocks_precede_each_other(tree, root, block);
            }
        }
    }
}

/// Going on from there leads to the start or to a later block on the head's chain. Every block on
/// the way has the votes, and was allowed to be stepped to.
pub(crate) proof fn lemma_current_epoch_step<S: StateProvider>(
    rule: Rule<S>,
    tree: ProtoArrayView,
    fc: ForkChoiceStore,
    from: Hash256,
    head: Hash256,
    root: Hash256,
)
    requires
        tree.valid(),
        tree.known(from),
        rule.through_current_epoch(tree, fc, from, head, Some(root)),
    ensures
        tree.known(root),
        is_ancestor(tree, root, from),
        root != from ==> rule.tentative(tree, fc, from, head, Some(root)) && rule.safe_to_advance(
            tree,
            fc,
            head,
            root,
            true,
        ),
        forall|block: Hash256| #[trigger]
            on_the_way(tree, from, root, block) ==> tree.is_descendant(block, head)
                && rule.one_confirmed(tree, fc, block, Ok(true)) && tree.block(block).parent_root
                is Some && rule.step_allowed(
                tree,
                fc,
                tree.block(block).parent_root->0,
                block,
                true,
            ),
{
    if root != from {
        assert(rule.tentative(tree, fc, from, head, Some(root)));
        let path = canonical_roots(tree, from, head)->0;
        let n = choose|n: int| rule.current_epoch_stop(tree, fc, path, n, Some(root));
        lemma_path_descends(tree, from, head, path, n);
        assert(path[n] == root);
        assert forall|block: Hash256| #[trigger] on_the_way(tree, from, root, block) implies tree.is_descendant(
            block,
            head,
        ) && rule.one_confirmed(tree, fc, block, Ok(true)) && tree.block(block).parent_root is Some
            && rule.step_allowed(tree, fc, tree.block(block).parent_root->0, block, true) by {
            let k = lemma_on_path(tree, from, head, path, n, block);
            lemma_path_descends(tree, from, head, path, k);
            lemma_canonical_roots(tree, from, head);
            assert(rule.step_allowed(tree, fc, path[k - 1], path[k], true));
        }
    } else {
        assert forall|block: Hash256| !on_the_way(tree, from, root, block) by {
            if on_the_way(tree, from, root, block) {
                law_no_two_blocks_precede_each_other(tree, root, block);
            }
        }
    }
}

/// The two stretches of a search, up to `mid` and on from there.
pub(crate) proof fn lemma_stretches<S: StateProvider>(
    rule: Rule<S>,
    tree: ProtoArrayView,
    fc: ForkChoiceStore,
    confirmed: Hash256,
    head: Hash256,
    root: Hash256,
) -> (mid: Hash256)
    requires
        tree.valid(),
        rule.latest_descendant(tree, fc, confirmed, head, Some(root)),
    ensures
        rule.through_previous_epoch(tree, fc, confirmed, head, Some(mid)),
        rule.through_current_epoch(tree, fc, mid, head, Some(root)),
        tree.known(confirmed),
        tree.known(mid),
        tree.known(root),
        is_ancestor(tree, mid, confirmed),
        is_ancestor(tree, root, mid),
        forall|block: Hash256| #[trigger]
            on_the_way(tree, confirmed, root, block) ==> on_the_way(tree, confirmed, mid, block)
                || on_the_way(tree, mid, root, block),
{
    let reached = choose|reached: Option<Hash256>|
        {
            &&& #[trigger] rule.through_previous_epoch(tree, fc, confirmed, head, reached)
            &&& match reached {
                None => false,
                Some(mid) => rule.through_current_epoch(tree, fc, mid, head, Some(root)),
            }
        };
    let mid = reached->0;
    lemma_previous_epoch_step(rule, tree, fc, confirmed, head, mid);
    lemma_current_epoch_step(rule, tree, fc, mid, head, root);
    assert forall|block: Hash256| #[trigger]
        on_the_way(tree, confirmed, root, block) implies on_the_way(tree, confirmed, mid, block)
        || on_the_way(tree, mid, root, block) by {
        if tree.slot(block).0 <= tree.slot(mid).0 {
            law_ancestors_form_a_chain(tree, root, block, mid);
        } else {
            law_ancestors_form_a_chain(tree, root, mid, block);
        }
    }
    mid
}

/// The search for the latest confirmed block ends where it began, or at a later block on the
/// head's chain. That block and every block on the way to it have the votes to be confirmed.
pub proof fn law_search_follows_the_chain<S: StateProvider>(
    rule: Rule<S>,
    tree: ProtoArrayView,
    fc: ForkChoiceStore,
    confirmed: Hash256,
    head: Hash256,
    root: Hash256,
)
    requires
        tree.valid(),
        rule.latest_descendant(tree, fc, confirmed, head, Some(root)),
    ensures
        tree.known(confirmed),
        tree.known(root),
        is_ancestor(tree, root, confirmed),
        root != confirmed ==> on_the_way(tree, confirmed, root, root),
        forall|block: Hash256| #[trigger]
            on_the_way(tree, confirmed, root, block) ==> tree.is_descendant(block, head)
                && rule.one_confirmed(tree, fc, block, Ok(true)),
{
    let mid = lemma_stretches(rule, tree, fc, confirmed, head, root);
    lemma_previous_epoch_step(rule, tree, fc, confirmed, head, mid);
    lemma_current_epoch_step(rule, tree, fc, mid, head, root);
    law_ancestors_of_ancestors(tree, root, mid, confirmed);
}

/// Whether `block` is the first one of the current epoch on its chain.
pub open spec fn opens_current_epoch<S: StateProvider>(
    rule: Rule<S>,
    tree: ProtoArrayView,
    fc: ForkChoiceStore,
    block: Hash256,
) -> bool {
    &&& tree.known(block)
    &&& rule.block_epoch(tree, block) == rule.current_epoch(fc)
    &&& match tree.block(block).parent_root {
        Some(parent) => tree.known(parent) && rule.block_epoch(tree, parent).0
            < rule.current_epoch(fc).0,
        None => false,
    }
}

/// A path that begins before the current epoch and reaches it has a first block of that epoch.
proof fn lemma_path_has_an_opener<S: StateProvider>(
    rule: Rule<S>,
    tree: ProtoArrayView,
    fc: ForkChoiceStore,
    from: Hash256,
    head: Hash256,
    path: Seq<Hash256>,
    n: int,
) -> (block: Hash256)
    requires
        tree.valid(),
        rule.slots_per_epoch > 0,
        tree.known(from),
        canonical_roots(tree, from, head) == Some(path),
        0 <= n < path.len(),
        rule.block_epoch(tree, from).0 < rule.current_epoch(fc).0,
        rule.block_epoch(tree, path[n]) == rule.current_epoch(fc),
    ensures
        on_the_way(tree, from, path[n], block),
        opens_current_epoch(rule, tree, fc, block),
    decreases n,
{
    lemma_path_descends(tree, from, head, path, n);
    assert(n != 0);
    lemma_path_descends(tree, from, head, path, n - 1);
    lemma_canonical_roots(tree, from, head);
    let before = path[n - 1];
    let here = path[n];
    assert(tree.block(here).parent_root == Some(before));
    lemma_div_is_ordered(
        tree.slot(before).0 as int,
        tree.slot(here).0 as int,
        rule.slots_per_epoch as int,
    );
    if rule.block_epoch(tree, before).0 < rule.block_epoch(tree, here).0 {
        here
    } else {
        let block = lemma_path_has_an_opener(rule, tree, fc, from, head, path, n - 1);
        tree.lemma_lineage_step(here);
        tree.lemma_lineage_step(before);
        assert(tree.lineage(here)[1] == before);
        assert(tree.lineage(here).contains(before));
        law_ancestors_of_ancestors(tree, here, before, block);
        block
    }
}

/// The latest block of an epoch among a block of that epoch and those before it is the block
/// itself.
pub(crate) proof fn lemma_checkpoint_block_of_its_own_epoch(
    tree: ProtoArrayView,
    slots_per_epoch: u64,
    block: Hash256,
)
    requires
        tree.valid(),
        tree.known(block),
    ensures
        checkpoint_block(tree, slots_per_epoch, block, tree.epoch(block, slots_per_epoch)) == Some(
            block,
        ),
{
    let epoch = tree.epoch(block, slots_per_epoch);
    tree.lemma_lineage_step(block);
    assert(tree.lineage(block)[0] == block);
    assert(latest_in_epoch(tree, slots_per_epoch, block, epoch, 0));
    let i = choose|i: int| latest_in_epoch(tree, slots_per_epoch, block, epoch, i);
    assert(latest_in_epoch(tree, slots_per_epoch, block, epoch, i));
    if i > 0 {
        assert(tree.epoch(tree.lineage(block)[0], slots_per_epoch) != epoch);
    }
}

/// Where the walk through the current epoch passes the epoch's first block, the checkpoint on that
/// block was found to be justified in the end.
proof fn lemma_opener_is_justified<S: StateProvider>(
    rule: Rule<S>,
    tree: ProtoArrayView,
    fc: ForkChoiceStore,
    from: Hash256,
    head: Hash256,
    root: Hash256,
    first: Hash256,
)
    requires
        tree.valid(),
        tree.known(from),
        rule.through_current_epoch(tree, fc, from, head, Some(root)),
        on_the_way(tree, from, root, first),
        opens_current_epoch(rule, tree, fc, first),
    ensures
        rule.will_be_justified(
            tree,
            fc,
            Checkpoint { epoch: rule.current_epoch(fc), root: first },
            Ok(true),
        ),
{
    lemma_current_epoch_step(rule, tree, fc, from, head, root);
    lemma_checkpoint_block_of_its_own_epoch(tree, rule.slots_per_epoch, first);
    assert(rule.step_allowed(tree, fc, tree.block(first).parent_root->0, first, true));
}

/// A walk from before the current epoch into it passes the epoch's first block.
proof fn lemma_walk_has_an_opener<S: StateProvider>(
    rule: Rule<S>,
    tree: ProtoArrayView,
    fc: ForkChoiceStore,
    from: Hash256,
    head: Hash256,
    root: Hash256,
) -> (first: Hash256)
    requires
        tree.valid(),
        rule.slots_per_epoch > 0,
        tree.known(from),
        rule.tentative(tree, fc, from, head, Some(root)),
        rule.block_epoch(tree, from).0 < rule.current_epoch(fc).0,
        rule.block_epoch(tree, root) == rule.current_epoch(fc),
    ensures
        on_the_way(tree, from, root, first),
        opens_current_epoch(rule, tree, fc, first),
{
    let path = canonical_roots(tree, from, head)->0;
    let n = choose|n: int| rule.current_epoch_stop(tree, fc, path, n, Some(root));
    lemma_path_has_an_opener(rule, tree, fc, from, head, path, n)
}

/// A search that begins before the current epoch ends in the current epoch only if the votes of
/// that epoch are recent, and if the checkpoint on the epoch's first block is found to be justified
/// in the end. That first block lies on the way.
#[verifier::spinoff_prover]
#[verifier::rlimit(40)]
pub proof fn law_current_epoch_needs_justification<S: StateProvider>(
    rule: Rule<S>,
    tree: ProtoArrayView,
    fc: ForkChoiceStore,
    confirmed: Hash256,
    head: Hash256,
    root: Hash256,
)
    requires
        tree.valid(),
        rule.slots_per_epoch > 0,
        rule.latest_descendant(tree, fc, confirmed, head, Some(root)),
        rule.block_epoch(tree, confirmed).0 < rule.current_epoch(fc).0,
        rule.block_epoch(tree, root) == rule.current_epoch(fc),
    ensures
        exists|first: Hash256|
            #![trigger opens_current_epoch(rule, tree, fc, first)]
            on_the_way(tree, confirmed, root, first) && opens_current_epoch(rule, tree, fc, first),
        forall|first: Hash256|
            #![trigger opens_current_epoch(rule, tree, fc, first)]
            on_the_way(tree, confirmed, root, first) && opens_current_epoch(rule, tree, fc, first)
                ==> rule.will_be_justified(
                tree,
                fc,
                Checkpoint { epoch: rule.current_epoch(fc), root: first },
                Ok(true),
            ),
        rule.safe_to_advance(tree, fc, head, root, true),
{
    let mid = lemma_stretches(rule, tree, fc, confirmed, head, root);
    lemma_previous_epoch_step(rule, tree, fc, confirmed, head, mid);
    lemma_current_epoch_step(rule, tree, fc, mid, head, root);
    assert(mid != confirmed ==> on_the_way(tree, confirmed, mid, mid));
    assert(mid != root);
    law_ancestors_lie_in_earlier_slots(tree, root, mid);
    lemma_div_is_ordered(
        tree.slot(mid).0 as int,
        tree.slot(root).0 as int,
        rule.slots_per_epoch as int,
    );
    let opener = lemma_walk_has_an_opener(rule, tree, fc, mid, head, root);
    law_ancestors_of_ancestors(tree, opener, mid, confirmed);
    assert(on_the_way(tree, confirmed, root, opener));
    assert forall|first: Hash256|
        #![trigger opens_current_epoch(rule, tree, fc, first)]
        on_the_way(tree, confirmed, root, first) && opens_current_epoch(
            rule,
            tree,
            fc,
            first,
        ) implies rule.will_be_justified(
        tree,
        fc,
        Checkpoint { epoch: rule.current_epoch(fc), root: first },
        Ok(true),
    ) by {
        lemma_opener_is_justified(rule, tree, fc, mid, head, root, first);
    }
}

/// The latest confirmed block is one that the tree knows, if the finalized block is.
pub proof fn law_latest_confirmed_is_known<S: StateProvider>(
    rule: Rule<S>,
    tree: ProtoArrayView,
    fc: ForkChoiceStore,
    head: Hash256,
    root: Hash256,
)
    requires
        tree.valid(),
        tree.known(fc.finalized_checkpoint.root),
        rule.latest_confirmed(tree, fc, head, root),
    ensures
        tree.known(root),
{
    let base = rule.base_root(tree, fc, head);
    if rule.latest_descendant(tree, fc, base, head, Some(root)) {
        law_search_follows_the_chain(rule, tree, fc, base, head, root);
    }
}

/// The latest confirmed block is the head or comes before it, if the block that the rule starts
/// from does. A confirmed block that the rule keeps always does.
pub proof fn law_latest_confirmed_is_on_the_heads_chain<S: StateProvider>(
    rule: Rule<S>,
    tree: ProtoArrayView,
    fc: ForkChoiceStore,
    head: Hash256,
    root: Hash256,
)
    requires
        tree.valid(),
        rule.latest_confirmed(tree, fc, head, root),
        rule.must_restart(tree, fc, head) ==> is_ancestor(
            tree,
            head,
            fc.finalized_checkpoint.root,
        ),
        rule.uplifts(tree, fc, rule.starting_root(tree, fc, head)) ==> is_ancestor(
            tree,
            head,
            rule.store.prev_slot_unrealized_justified_checkpoint.root,
        ),
    ensures
        is_ancestor(tree, head, root),
{
    let base = rule.base_root(tree, fc, head);
    if rule.latest_descendant(tree, fc, base, head, Some(root)) {
        law_search_follows_the_chain(rule, tree, fc, base, head, root);
    }
}

/// The latest confirmed block comes after the finalized one or is it, if the rule starts from a
/// block on the head's chain that is no earlier than the finalized one, and the finalized block is
/// on that chain too.
pub proof fn law_latest_confirmed_follows_the_finalized_block<S: StateProvider>(
    rule: Rule<S>,
    tree: ProtoArrayView,
    fc: ForkChoiceStore,
    head: Hash256,
    root: Hash256,
)
    requires
        tree.valid(),
        tree.known(head),
        rule.latest_confirmed(tree, fc, head, root),
        is_ancestor(tree, head, fc.finalized_checkpoint.root),
        !rule.must_restart(tree, fc, head) ==> tree.slot(fc.finalized_checkpoint.root).0
            <= tree.slot(rule.store.confirmed_root).0,
        rule.uplifts(tree, fc, rule.starting_root(tree, fc, head)) ==> is_ancestor(
            tree,
            head,
            rule.store.prev_slot_unrealized_justified_checkpoint.root,
        ),
    ensures
        is_ancestor(tree, root, fc.finalized_checkpoint.root),
{
    let base = rule.base_root(tree, fc, head);
    let finalized = fc.finalized_checkpoint.root;
    assert(is_ancestor(tree, head, base));
    law_ancestors_form_a_chain(tree, head, finalized, base);
    if rule.latest_descendant(tree, fc, base, head, Some(root)) {
        law_search_follows_the_chain(rule, tree, fc, base, head, root);
        law_ancestors_of_ancestors(tree, root, base, finalized);
    }
}

/// As long as the confirmed block stays on the head's chain and does not grow too old, it never
/// moves back: it stays, or a later block takes its place. Only in the first slot of an epoch may
/// that block be off its chain.
pub proof fn law_confirmation_does_not_move_back<S: StateProvider>(
    rule: Rule<S>,
    tree: ProtoArrayView,
    fc: ForkChoiceStore,
    head: Hash256,
    root: Hash256,
)
    requires
        tree.valid(),
        rule.latest_confirmed(tree, fc, head, root),
        !rule.must_restart(tree, fc, head),
    ensures
        tree.slot(rule.store.confirmed_root).0 <= tree.slot(root).0,
        rule.rollback(tree, root) is None,
        !rule.uplifts(tree, fc, rule.store.confirmed_root) ==> is_ancestor(
            tree,
            root,
            rule.store.confirmed_root,
        ),
{
    let base = rule.base_root(tree, fc, head);
    if rule.latest_descendant(tree, fc, base, head, Some(root)) {
        law_search_follows_the_chain(rule, tree, fc, base, head, root);
        if root != base {
            law_ancestors_lie_in_earlier_slots(tree, root, base);
        }
    }
}

/// A block that the rule newly comes to has the votes to be confirmed, or is the finalized block
/// of a restart, or the block of the uplift.
pub proof fn law_newly_confirmed_block_has_the_votes<S: StateProvider>(
    rule: Rule<S>,
    tree: ProtoArrayView,
    fc: ForkChoiceStore,
    head: Hash256,
    root: Hash256,
)
    requires
        tree.valid(),
        rule.latest_confirmed(tree, fc, head, root),
        root != rule.store.confirmed_root,
    ensures
        rule.one_confirmed(tree, fc, root, Ok(true)) || (rule.must_restart(tree, fc, head)
            && root == fc.finalized_checkpoint.root) || (rule.uplifts(
            tree,
            fc,
            rule.starting_root(tree, fc, head),
        ) && root == rule.store.prev_slot_unrealized_justified_checkpoint.root),
{
    let base = rule.base_root(tree, fc, head);
    if rule.latest_descendant(tree, fc, base, head, Some(root)) {
        law_search_follows_the_chain(rule, tree, fc, base, head, root);
    }
}

} // verus!
