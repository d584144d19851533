//! The confirmation rule, stated over what the tree, the store and the state provider hold.

use crate::committee_weight::{cap, committee_weight, ffg_weight_till_slot, outweighs};
use crate::config::FastConfirmationConfig;
use crate::error::Error;
use crate::ffg::honest_weight;
use crate::fork_choice_store::ForkChoiceStore;
use crate::metrics::{LatestConfirmation, Restart};
use crate::proto_array::{proposer_score, weight, ProtoArrayView};
use crate::state_provider::{may_find, CheckpointState, StateProvider};
use crate::types::{
    default_checkpoint, epoch_of, is_epoch_start, sat_add, sat_sub, Checkpoint, Epoch, Hash256, Slot,
};
use crate::votes::{canonical_roots, checkpoint_block, checkpoint_support, is_voting_source};
use vstd::prelude::*;

verus! {

/// What the rule remembers from slot to slot.
#[derive(Debug, Clone, Copy, PartialEq, Eq, Structural)]
pub struct FcrStore {
    /// The latest confirmed block.
    pub confirmed_root: Hash256,
    /// The safe head.
    pub safe_head_root: Hash256,
    /// The justified checkpoint of the previous slot.
    pub prev_slot_justified_checkpoint: Checkpoint,
    /// The unrealized justified checkpoint of the previous slot.
    pub prev_slot_unrealized_justified_checkpoint: Checkpoint,
    /// The head of the previous slot.
    pub prev_slot_head: Hash256,
    /// The checkpoint whose state weights are taken from. In the first slot of an epoch, once the
    /// latest confirmed block has been found, the unrealized justified checkpoint takes its place;
    /// it then stays the same up to the first slot of the next epoch.
    pub prev_epoch_unrealized_justified_checkpoint: Checkpoint,
}

/// What the rule remembers before its first slot.
pub open spec fn initial_store() -> FcrStore {
    FcrStore {
        confirmed_root: Hash256::spec_zero(),
        safe_head_root: Hash256::spec_zero(),
        prev_slot_justified_checkpoint: default_checkpoint(),
        prev_slot_unrealized_justified_checkpoint: default_checkpoint(),
        prev_slot_head: Hash256::spec_zero(),
        prev_epoch_unrealized_justified_checkpoint: default_checkpoint(),
    }
}

impl Default for FcrStore {
    fn default() -> (r: FcrStore)
        ensures
            r == initial_store(),
    {
        FcrStore {
            confirmed_root: Hash256::zero(),
            safe_head_root: Hash256::zero(),
            prev_slot_justified_checkpoint: Checkpoint::default(),
            prev_slot_unrealized_justified_checkpoint: Checkpoint::default(),
            prev_slot_head: Hash256::zero(),
            prev_epoch_unrealized_justified_checkpoint: Checkpoint::default(),
        }
    }
}

/// Whether `ancestor` is `root` or comes before it.
pub open spec fn is_ancestor(tree: ProtoArrayView, root: Hash256, ancestor: Hash256) -> bool {
    root == ancestor || tree.is_descendant(ancestor, root)
}

/// The slot of a block, or zero if it is not known.
pub open spec fn slot_or_zero(tree: ProtoArrayView, root: Hash256) -> u64 {
    if tree.known(root) {
        tree.slot(root).0
    } else {
        0
    }
}

/// The slot of a block, or `other` if it is not known.
pub open spec fn slot_or(tree: ProtoArrayView, root: Hash256, other: Slot) -> Slot {
    if tree.known(root) {
        tree.slot(root)
    } else {
        other
    }
}

/// The slots in which votes for a block with this parent could have been cast by now: from the
/// one after the parent's to the one before the current slot.
pub open spec fn vote_window(tree: ProtoArrayView, fc: ForkChoiceStore, parent: Hash256) -> (
    Slot,
    Slot,
) {
    (Slot(sat_add(tree.slot(parent).0, 1)), Slot(sat_sub(fc.current_slot.0, 1)))
}

/// The total stake that weights are taken from: that of the checkpoint's state, or that of the
/// justified balances where the state cannot tell.
pub open spec fn weighting_balance(fc: ForkChoiceStore, state: Option<CheckpointState>) -> u64 {
    match state {
        Some(state) => match state.total_active_balance {
            Some(total) => total,
            None => fc.justified_balances.total_effective_balance,
        },
        None => fc.justified_balances.total_effective_balance,
    }
}

/// What the proposer boost adds to a block's support: the difference that it makes now, or else
/// the score that a timely proposal is worth.
pub open spec fn proposer_score_delta(tree: ProtoArrayView, root: Hash256, support: u64) -> int {
    match weight(tree, root, true) {
        Some(boosted) if boosted > support => boosted - support,
        _ => match proposer_score(tree, root) {
            Some(score) => score as int,
            None => 0,
        },
    }
}

/// The votes behind a block, and what they are held against.
#[derive(Debug, Clone, Copy, PartialEq, Eq, Structural)]
pub struct VoteTally {
    /// The attesting balance behind the block.
    pub support: u64,
    /// The balance that could have attested.
    pub committee_weight: u128,
    /// What the proposer boost adds.
    pub proposer_score: u64,
}

/// The thresholds, the memory and the state provider of the rule.
pub struct Rule<S> {
    pub config: FastConfirmationConfig,
    pub slots_per_epoch: u64,
    pub store: FcrStore,
    pub provider: S,
}

impl<S: StateProvider> Rule<S> {
    /// The epoch that is under way.
    pub open spec fn current_epoch(self, fc: ForkChoiceStore) -> Epoch {
        epoch_of(fc.current_slot, self.slots_per_epoch)
    }

    /// Whether the current slot is the first one of its epoch.
    pub open spec fn at_epoch_start(self, fc: ForkChoiceStore) -> bool {
        is_epoch_start(fc.current_slot, self.slots_per_epoch)
    }

    /// The epoch of a block that is known.
    pub open spec fn block_epoch(self, tree: ProtoArrayView, root: Hash256) -> Epoch {
        tree.epoch(root, self.slots_per_epoch)
    }

    /// Whether a block has enough votes to be confirmed, when its weights are taken from `state`.
    pub open spec fn q_indicator(
        self,
        tree: ProtoArrayView,
        fc: ForkChoiceStore,
        root: Hash256,
        state: Option<CheckpointState>,
    ) -> Result<bool, Error> {
        if !tree.known(root) {
            Err(Error::BlockNotFound(root))
        } else {
            match tree.block(root).parent_root {
                None => Ok(false),
                Some(parent) => if !tree.known(parent) {
                    Err(Error::ParentNotFound(parent))
                } else {
                    match weight(tree, root, false) {
                        None => Err(Error::WeightNotFound(root)),
                        Some(support) => {
                            let (start, end) = vote_window(tree, fc, parent);
                            Ok(
                                start.0 <= end.0 && outweighs(
                                    support as int,
                                    committee_weight(
                                        start,
                                        end,
                                        weighting_balance(fc, state),
                                        self.slots_per_epoch,
                                    ),
                                    proposer_score_delta(tree, root, support),
                                    self.config.beta_percentage as int,
                                ),
                            )
                        },
                    }
                },
            }
        }
    }

    /// The votes behind a block and what they are held against, when its weights are taken from
    /// `state`. There is nothing to hold them against for the first block of the tree, and as long
    /// as there could be no votes.
    pub open spec fn vote_tally(
        self,
        tree: ProtoArrayView,
        fc: ForkChoiceStore,
        root: Hash256,
        state: Option<CheckpointState>,
    ) -> Result<Option<VoteTally>, Error> {
        if !tree.known(root) {
            Err(Error::BlockNotFound(root))
        } else {
            match tree.block(root).parent_root {
                None => Ok(None),
                Some(parent) => if !tree.known(parent) {
                    Err(Error::ParentNotFound(parent))
                } else {
                    match weight(tree, root, false) {
                        None => Err(Error::WeightNotFound(root)),
                        Some(support) => {
                            let (start, end) = vote_window(tree, fc, parent);
                            if start.0 > end.0 {
                                Ok(None)
                            } else {
                                Ok(
                                    Some(
                                        VoteTally {
                                            support,
                                            committee_weight: committee_weight(
                                                start,
                                                end,
                                                weighting_balance(fc, state),
                                                self.slots_per_epoch,
                                            ) as u128,
                                            proposer_score: proposer_score_delta(
                                                tree,
                                                root,
                                                support,
                                            ) as u64,
                                        },
                                    ),
                                )
                            }
                        },
                    }
                },
            }
        }
    }

    /// Whether the check of a block asks the state provider: it does once the block and its parent
    /// are found.
    pub open spec fn asks_for_state(self, tree: ProtoArrayView, root: Hash256) -> bool {
        tree.known(root) && match tree.block(root).parent_root {
            Some(parent) => tree.known(parent),
            None => false,
        }
    }

    /// Whether checking a block for confirmation can come out as `outcome`.
    pub open spec fn one_confirmed(
        self,
        tree: ProtoArrayView,
        fc: ForkChoiceStore,
        root: Hash256,
        outcome: Result<bool, Error>,
    ) -> bool {
        if self.asks_for_state(tree, root) {
            exists|state: Option<CheckpointState>| #[trigger]
                may_find(
                    &self.provider,
                    self.store.prev_epoch_unrealized_justified_checkpoint,
                    state,
                ) && outcome == self.q_indicator(tree, fc, root, state)
        } else {
            outcome == self.q_indicator(tree, fc, root, None)
        }
    }

    /// The stake that honest validators can be counted on to give a checkpoint of the current
    /// epoch, out of `total`.
    pub open spec fn honest_support(
        self,
        tree: ProtoArrayView,
        fc: ForkChoiceStore,
        checkpoint: Checkpoint,
        state: CheckpointState,
        total: u64,
    ) -> int {
        honest_weight(
            total as int,
            ffg_weight_till_slot(
                fc.current_slot,
                self.current_epoch(fc),
                total,
                self.slots_per_epoch,
            ),
            cap(
                checkpoint_support(
                    tree,
                    checkpoint,
                    state.validators@,
                    state.validators@.len() as int,
                ),
            ),
            self.config.beta_percentage as int,
            self.config.slashing_percentage as int,
        )
    }

    /// Whether three times the honest support of a checkpoint reaches `share` times the total.
    pub open spec fn reaches(
        self,
        tree: ProtoArrayView,
        fc: ForkChoiceStore,
        checkpoint: Checkpoint,
        state: Option<CheckpointState>,
        share: int,
    ) -> Result<bool, Error> {
        match state {
            None => Ok(false),
            Some(state) => match state.total_active_balance {
                None => Err(Error::TotalActiveBalanceUnavailable),
                Some(total) => Ok(
                    3 * self.honest_support(tree, fc, checkpoint, state, total) >= share * total,
                ),
            },
        }
    }

    /// Whether asking if a checkpoint of the current epoch will be justified can come out as
    /// `outcome`: it will be if honest validators give it two thirds of the stake.
    pub open spec fn current_epoch_justified(
        self,
        tree: ProtoArrayView,
        fc: ForkChoiceStore,
        checkpoint: Checkpoint,
        outcome: Result<bool, Error>,
    ) -> bool {
        if checkpoint.epoch != self.current_epoch(fc) {
            outcome == Err::<bool, Error>(Error::CheckpointNotInCurrentEpoch)
        } else {
            exists|state: Option<CheckpointState>| #[trigger]
                may_find(&self.provider, checkpoint, state) && outcome == self.reaches(
                    tree,
                    fc,
                    checkpoint,
                    state,
                    2,
                )
        }
    }

    /// Whether asking if a checkpoint will be justified can come out as `outcome`.
    pub open spec fn will_be_justified(
        self,
        tree: ProtoArrayView,
        fc: ForkChoiceStore,
        checkpoint: Checkpoint,
        outcome: Result<bool, Error>,
    ) -> bool {
        if checkpoint == fc.justified_checkpoint || checkpoint
            == fc.unrealized_justified_checkpoint {
            outcome == Ok::<bool, Error>(true)
        } else if checkpoint.epoch == self.current_epoch(fc) {
            self.current_epoch_justified(tree, fc, checkpoint, outcome)
        } else {
            outcome == Ok::<bool, Error>(false)
        }
    }

    /// The checkpoint of the current epoch on the head's chain.
    pub open spec fn head_checkpoint(
        self,
        tree: ProtoArrayView,
        fc: ForkChoiceStore,
        head: Hash256,
    ) -> Checkpoint {
        Checkpoint {
            epoch: self.current_epoch(fc),
            root: match checkpoint_block(
                tree,
                self.slots_per_epoch,
                head,
                self.current_epoch(fc),
            ) {
                Some(root) => root,
                None => head,
            },
        }
    }

    /// Whether asking if no checkpoint against the head's chain will be justified can come out as
    /// `outcome`: none will be if honest validators give the head's checkpoint a third of the
    /// stake.
    pub open spec fn no_conflict(
        self,
        tree: ProtoArrayView,
        fc: ForkChoiceStore,
        head: Hash256,
        outcome: Result<bool, Error>,
    ) -> bool {
        let checkpoint = self.head_checkpoint(tree, fc, head);
        exists|state: Option<CheckpointState>| #[trigger]
            may_find(&self.provider, checkpoint, state) && outcome == self.reaches(
                tree,
                fc,
                checkpoint,
                state,
                1,
            )
    }

    /// Whether the votes for a block and those after it are of `source`, for the most part.
    pub open spec fn voting_source(
        self,
        tree: ProtoArrayView,
        fc: ForkChoiceStore,
        root: Hash256,
        source: Epoch,
    ) -> bool {
        is_voting_source(
            tree,
            fc.justified_balances.effective_balances@,
            root,
            self.store.prev_slot_unrealized_justified_checkpoint.epoch,
            source,
        )
    }

    /// Whether an epoch of votes is recent enough: no more than two epochs back.
    pub open spec fn is_recent_source(self, fc: ForkChoiceStore, source: Epoch) -> bool {
        sat_add(source.0, 2) >= self.current_epoch(fc).0
    }

    /// Whether a block is known to have justified the previous epoch or a later one.
    pub open spec fn recently_justified(
        self,
        tree: ProtoArrayView,
        fc: ForkChoiceStore,
        root: Hash256,
    ) -> bool {
        tree.known(root) && match tree.block(root).unrealized_justified_checkpoint {
            Some(checkpoint) => sat_add(checkpoint.epoch.0, 1) >= self.current_epoch(fc).0,
            None => false,
        }
    }

    /// Whether a block of the previous epoch can be taken up: it is known, is not one of the
    /// current epoch, and is the previous slot's head or comes after it.
    pub open spec fn prev_epoch_candidate(
        self,
        tree: ProtoArrayView,
        fc: ForkChoiceStore,
        root: Hash256,
    ) -> bool {
        &&& tree.known(root)
        &&& self.block_epoch(tree, root) != self.current_epoch(fc)
        &&& tree.is_descendant(self.store.prev_slot_head, root)
    }

    /// The first `n` steps along `path` lead to candidates of the previous epoch that are
    /// confirmed.
    pub open spec fn prev_epoch_advance(
        self,
        tree: ProtoArrayView,
        fc: ForkChoiceStore,
        path: Seq<Hash256>,
        n: int,
    ) -> bool {
        forall|k: int|
            1 <= k <= n ==> self.prev_epoch_candidate(tree, fc, #[trigger] path[k])
                && self.one_confirmed(tree, fc, path[k], Ok(true))
    }

    /// The walk along `path` through the previous epoch can end after `n` steps with `out`: the
    /// block reached, or nothing where checking the next block fails.
    pub open spec fn prev_epoch_stop(
        self,
        tree: ProtoArrayView,
        fc: ForkChoiceStore,
        path: Seq<Hash256>,
        n: int,
        out: Option<Hash256>,
    ) -> bool {
        let next = path[n + 1];
        &&& 0 <= n < path.len()
        &&& self.prev_epoch_advance(tree, fc, path, n)
        &&& match out {
            Some(root) => root == path[n] && (n + 1 == path.len() || !self.prev_epoch_candidate(
                tree,
                fc,
                next,
            ) || self.one_confirmed(tree, fc, next, Ok(false))),
            None => n + 1 < path.len() && self.prev_epoch_candidate(tree, fc, next)
                && exists|error: Error| self.one_confirmed(tree, fc, next, Err(error)),
        }
    }

    /// Whether blocks of the previous epoch may be taken up at all.
    pub open spec fn prev_epoch_open(
        self,
        tree: ProtoArrayView,
        fc: ForkChoiceStore,
        head: Hash256,
        source: Epoch,
        conflict: Result<bool, Error>,
    ) -> bool {
        self.is_recent_source(fc, source) && (self.at_epoch_start(fc) || (conflict == Ok::<
            bool,
            Error,
        >(true) && (self.recently_justified(tree, fc, self.store.prev_slot_head)
            || self.recently_justified(tree, fc, head))))
    }

    /// Whether going from `from` towards `head` through the previous epoch can end with `out`.
    pub open spec fn through_previous_epoch(
        self,
        tree: ProtoArrayView,
        fc: ForkChoiceStore,
        from: Hash256,
        head: Hash256,
        out: Option<Hash256>,
    ) -> bool {
        if sat_add(self.block_epoch(tree, from).0, 1) != self.current_epoch(fc).0 {
            out == Some(from)
        } else {
            exists|source: Epoch, conflict: Result<bool, Error>|
                #![trigger self.voting_source(tree, fc, self.store.prev_slot_head, source), self.no_conflict(tree, fc, head, conflict)]
                {
                    &&& self.voting_source(tree, fc, self.store.prev_slot_head, source)
                    &&& self.no_conflict(tree, fc, head, conflict)
                    &&& if self.prev_epoch_open(tree, fc, head, source, conflict) {
                        match canonical_roots(tree, from, head) {
                            Some(path) => exists|n: int|
                                self.prev_epoch_stop(tree, fc, path, n, out),
                            None => out == Some(from),
                        }
                    } else {
                        out == Some(from)
                    }
                }
        }
    }

    /// Whether a step from `tentative` to `root` can be answered by `allowed`. A step into a later
    /// epoch is allowed if the checkpoint of that epoch will be justified.
    pub open spec fn step_allowed(
        self,
        tree: ProtoArrayView,
        fc: ForkChoiceStore,
        tentative: Hash256,
        root: Hash256,
        allowed: bool,
    ) -> bool {
        if !tree.known(root) {
            !allowed
        } else if tree.known(tentative) && self.block_epoch(tree, root).0 > self.block_epoch(
            tree,
            tentative,
        ).0 {
            let epoch = self.block_epoch(tree, root);
            match checkpoint_block(tree, self.slots_per_epoch, root, epoch) {
                Some(checkpoint_root) => exists|outcome: Result<bool, Error>| #[trigger]
                    self.will_be_justified(
                        tree,
                        fc,
                        Checkpoint { epoch, root: checkpoint_root },
                        outcome,
                    ) && allowed == (outcome == Ok::<bool, Error>(true)),
                None => !allowed,
            }
        } else {
            allowed
        }
    }

    /// The first `n` steps along `path` are allowed and lead to blocks that are confirmed.
    pub open spec fn current_epoch_advance(
        self,
        tree: ProtoArrayView,
        fc: ForkChoiceStore,
        path: Seq<Hash256>,
        n: int,
    ) -> bool {
        forall|k: int|
            1 <= k <= n ==> self.step_allowed(tree, fc, path[k - 1], #[trigger] path[k], true)
                && self.one_confirmed(tree, fc, path[k], Ok(true))
    }

    /// The walk along `path` can end after `n` steps with `out`: the block reached, or nothing
    /// where checking the next block fails.
    pub open spec fn current_epoch_stop(
        self,
        tree: ProtoArrayView,
        fc: ForkChoiceStore,
        path: Seq<Hash256>,
        n: int,
        out: Option<Hash256>,
    ) -> bool {
        let next = path[n + 1];
        &&& 0 <= n < path.len()
        &&& self.current_epoch_advance(tree, fc, path, n)
        &&& match out {
            Some(root) => root == path[n] && (n + 1 == path.len() || self.step_allowed(
                tree,
                fc,
                path[n],
                next,
                false,
            ) || (self.step_allowed(tree, fc, path[n], next, true) && self.one_confirmed(
                tree,
                fc,
                next,
                Ok(false),
            ))),
            None => n + 1 < path.len() && self.step_allowed(tree, fc, path[n], next, true)
                && exists|error: Error| self.one_confirmed(tree, fc, next, Err(error)),
        }
    }

    /// Whether the walk from `from` towards `head` can end with `out`.
    pub open spec fn tentative(
        self,
        tree: ProtoArrayView,
        fc: ForkChoiceStore,
        from: Hash256,
        head: Hash256,
        out: Option<Hash256>,
    ) -> bool {
        match canonical_roots(tree, from, head) {
            Some(path) => exists|n: int| self.current_epoch_stop(tree, fc, path, n, out),
            None => out == Some(from),
        }
    }

    /// Whether asking if it is safe to take up `tentative` can be answered by `safe`. A block of
    /// the current epoch needs recent votes; one of an earlier epoch is taken up in the first slot
    /// of an epoch only, and if no checkpoint against it will be justified.
    pub open spec fn safe_to_advance(
        self,
        tree: ProtoArrayView,
        fc: ForkChoiceStore,
        head: Hash256,
        tentative: Hash256,
        safe: bool,
    ) -> bool {
        if !tree.known(tentative) || self.block_epoch(tree, tentative) == self.current_epoch(fc) {
            exists|source: Epoch| #[trigger]
                self.voting_source(tree, fc, tentative, source) && safe == self.is_recent_source(
                    fc,
                    source,
                )
        } else if self.at_epoch_start(fc) {
            exists|conflict: Result<bool, Error>| #[trigger]
                self.no_conflict(tree, fc, head, conflict) && safe == (conflict == Ok::<
                    bool,
                    Error,
                >(true))
        } else {
            !safe
        }
    }

    /// Whether going from `from` towards `head` through the current epoch can end with `out`.
    pub open spec fn through_current_epoch(
        self,
        tree: ProtoArrayView,
        fc: ForkChoiceStore,
        from: Hash256,
        head: Hash256,
        out: Option<Hash256>,
    ) -> bool {
        if self.at_epoch_start(fc) || self.recently_justified(tree, fc, self.store.prev_slot_head)
            || self.recently_justified(tree, fc, head) {
            exists|tentative: Option<Hash256>|
                {
                    &&& #[trigger] self.tentative(tree, fc, from, head, tentative)
                    &&& match tentative {
                        None => out is None,
                        Some(root) => {
                            ||| out == Some(root) && self.safe_to_advance(tree, fc, head, root, true)
                            ||| out == Some(from) && self.safe_to_advance(
                                tree,
                                fc,
                                head,
                                root,
                                false,
                            )
                        },
                    }
                }
        } else {
            out == Some(from)
        }
    }

    /// Whether the search for the latest confirmed block on the way from `confirmed` to `head` can
    /// end with `out`.
    pub open spec fn latest_descendant(
        self,
        tree: ProtoArrayView,
        fc: ForkChoiceStore,
        confirmed: Hash256,
        head: Hash256,
        out: Option<Hash256>,
    ) -> bool {
        if !tree.known(confirmed) {
            out is None
        } else {
            exists|reached: Option<Hash256>|
                {
                    &&& #[trigger] self.through_previous_epoch(tree, fc, confirmed, head, reached)
                    &&& match reached {
                        None => out is None,
                        Some(root) => self.through_current_epoch(tree, fc, root, head, out),
                    }
                }
        }
    }

    /// Whether the confirmed block is from two epochs back or earlier.
    pub open spec fn is_too_old(self, tree: ProtoArrayView, fc: ForkChoiceStore) -> bool {
        sat_add(self.block_epoch(tree, self.store.confirmed_root).0, 1) < self.current_epoch(fc).0
    }

    /// Whether the rule has to go back to the finalized block: the confirmed block is not known,
    /// off the head's chain, or too old.
    pub open spec fn must_restart(
        self,
        tree: ProtoArrayView,
        fc: ForkChoiceStore,
        head: Hash256,
    ) -> bool {
        let confirmed = self.store.confirmed_root;
        ||| !tree.known(confirmed)
        ||| !tree.is_descendant(confirmed, head)
        ||| self.is_too_old(tree, fc)
    }

    /// Why the rule goes back to the finalized block, if it does, when `latest` comes out as the
    /// latest confirmed block in the end.
    pub open spec fn restart(
        self,
        tree: ProtoArrayView,
        fc: ForkChoiceStore,
        head: Hash256,
        latest: Hash256,
    ) -> Option<Restart> {
        let confirmed = self.store.confirmed_root;
        if !self.must_restart(tree, fc, head) {
            None
        } else if tree.known(confirmed) && !tree.is_descendant(confirmed, head) {
            Some(
                Restart::Reorg(
                    if tree.known(latest) {
                        Some(sat_sub(tree.slot(confirmed).0, tree.slot(latest).0))
                    } else {
                        None
                    },
                ),
            )
        } else {
            Some(Restart::Stale)
        }
    }

    /// The block that the rule starts from: the confirmed one, or the finalized one after a
    /// restart.
    pub open spec fn starting_root(
        self,
        tree: ProtoArrayView,
        fc: ForkChoiceStore,
        head: Hash256,
    ) -> Hash256 {
        if self.must_restart(tree, fc, head) {
            fc.finalized_checkpoint.root
        } else {
            self.store.confirmed_root
        }
    }

    /// Whether the previous slot's unrealized justified block takes the place of `root`: in the
    /// first slot of an epoch, if it was justified in the previous epoch and is later than `root`.
    pub open spec fn uplifts(
        self,
        tree: ProtoArrayView,
        fc: ForkChoiceStore,
        root: Hash256,
    ) -> bool {
        let checkpoint = self.store.prev_slot_unrealized_justified_checkpoint;
        &&& self.at_epoch_start(fc)
        &&& sat_add(checkpoint.epoch.0, 1) == self.current_epoch(fc).0
        &&& tree.known(root)
        &&& tree.known(checkpoint.root)
        &&& tree.slot(root).0 < tree.slot(checkpoint.root).0
    }

    /// The block from which the rule tries to advance.
    pub open spec fn base_root(
        self,
        tree: ProtoArrayView,
        fc: ForkChoiceStore,
        head: Hash256,
    ) -> Hash256 {
        let start = self.starting_root(tree, fc, head);
        if self.uplifts(tree, fc, start) {
            self.store.prev_slot_unrealized_justified_checkpoint.root
        } else {
            start
        }
    }

    /// Whether `root` can come out as the latest confirmed block.
    pub open spec fn latest_confirmed(
        self,
        tree: ProtoArrayView,
        fc: ForkChoiceStore,
        head: Hash256,
        root: Hash256,
    ) -> bool {
        let base = self.base_root(tree, fc, head);
        ||| self.latest_descendant(tree, fc, base, head, Some(root))
        ||| root == base && self.latest_descendant(tree, fc, base, head, None)
    }

    /// The slots by which the confirmed block moves back when it becomes `root`, for blocks that
    /// are known.
    pub open spec fn rollback(self, tree: ProtoArrayView, root: Hash256) -> Option<u64> {
        let confirmed = self.store.confirmed_root;
        if tree.known(confirmed) && tree.known(root) && tree.slot(root).0 < tree.slot(confirmed).0 {
            Some((tree.slot(confirmed).0 - tree.slot(root).0) as u64)
        } else {
            None
        }
    }

    /// Whether the assessment of the latest confirmed block can come out as `latest`.
    pub open spec fn assessed(
        self,
        tree: ProtoArrayView,
        fc: ForkChoiceStore,
        head: Hash256,
        latest: LatestConfirmation,
    ) -> bool {
        &&& self.latest_confirmed(tree, fc, head, latest.root)
        &&& latest.restart == self.restart(tree, fc, head, latest.root)
        &&& latest.rollback_slots == self.rollback(tree, latest.root)
    }
}

} // verus!
