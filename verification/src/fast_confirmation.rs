//! The Fast Confirmation Rule: which blocks of the canonical chain are safe from reorganisation,
//! judged by the votes seen so far, and within a slot or two of a block's proposal.

use crate::committee_weight::{
    cap, check_lmd_ghost_confirmation_inequality, committee_weight,
    get_committee_weight_between_slots, get_ffg_weight_till_slot,
};
use crate::config::FastConfirmationConfig;
use crate::error::Error;
use crate::ffg::get_honest_ffg_weight;
use crate::fork_choice_store::{ForkChoiceStore, ForkchoiceUpdateParameters};
use crate::memory::{
    confirmed_in, inherits, lemma_track_line, marked_meta, marked_record, outlives, pruned_meta,
    safe_head_reorg, track_known, track_line, tracked_meta, unshared, FastConfirmationView, FcrMeta,
    MAX_REORG_DEPTH,
};
use crate::metrics::{
    confirmation_record, ConfirmationRecord, HeadUpdate, LatestConfirmation, Restart, SlotUpdate,
};
use crate::proto_array::ProtoArrayForkChoice;
use crate::root_map::RootMap;
use crate::rule::{
    initial_store, is_ancestor, proposer_score_delta, slot_or, slot_or_zero, vote_window,
    weighting_balance, FcrStore, Rule, VoteTally,
};
use crate::state_provider::{find_state, may_find, CheckpointState, StateProvider};
use crate::types::{Checkpoint, Epoch, Hash256, Slot};
use crate::votes::{
    get_canonical_roots, get_checkpoint_block, get_checkpoint_weight, get_voting_source_epoch,
    lemma_canonical_roots,
};
use vstd::prelude::*;

verus! {

/// The safe head, for monitoring.
#[derive(Debug, Clone, Copy, PartialEq, Eq, Structural)]
pub struct SafeHeadMetrics {
    /// The safe head.
    pub safe_head_root: Hash256,
    /// The slot of the safe head, zero if it is not known.
    pub safe_head_slot: u64,
    /// The latest confirmed block.
    pub confirmed_root: Hash256,
}

/// An instance of the Fast Confirmation Rule.
pub struct FastConfirmation<S: StateProvider> {
    config: FastConfirmationConfig,
    slots_per_epoch: u64,
    meta: RootMap<FcrMeta>,
    fcr_store: FcrStore,
    state_provider: S,
}

impl<S: StateProvider> View for FastConfirmation<S> {
    type V = FastConfirmationView<S>;

    closed spec fn view(&self) -> FastConfirmationView<S> {
        FastConfirmationView {
            rule: Rule {
                config: self.config,
                slots_per_epoch: self.slots_per_epoch,
                store: self.fcr_store,
                provider: self.state_provider,
            },
            meta: self.meta@,
        }
    }
}

impl<S: StateProvider> FastConfirmation<S> {
    /// An epoch has slots, and the byzantine threshold is a percentage.
    pub closed spec fn wf(&self) -> bool {
        &&& self.slots_per_epoch > 0
        &&& self.config.beta_percentage <= 100
        &&& self.meta.wf()
    }

    /// An instance that has not seen any block yet. An epoch has `slots_per_epoch` slots.
    pub fn new(
        config: FastConfirmationConfig,
        slots_per_epoch: u64,
        state_provider: S,
    ) -> (r: FastConfirmation<S>)
        requires
            config.beta_percentage <= 100,
            slots_per_epoch > 0,
        ensures
            r.wf(),
            r@ == (FastConfirmationView {
                rule: Rule {
                    config,
                    slots_per_epoch,
                    store: initial_store(),
                    provider: state_provider,
                },
                meta: Map::empty(),
            }),
    {
        FastConfirmation {
            config,
            slots_per_epoch,
            meta: RootMap::new(),
            fcr_store: FcrStore::default(),
            state_provider,
        }
    }

    /// The latest confirmed block.
    pub fn confirmed_root(&self) -> (r: Hash256)
        ensures
            r == self@.rule.store.confirmed_root,
    {
        self.fcr_store.confirmed_root
    }

    /// The safe head.
    pub fn get_safe_head(&self) -> (r: Hash256)
        ensures
            r == self@.rule.store.safe_head_root,
    {
        self.fcr_store.safe_head_root
    }

    /// The justified checkpoint of the previous slot.
    pub fn prev_slot_justified_checkpoint(&self) -> (r: Checkpoint)
        ensures
            r == self@.rule.store.prev_slot_justified_checkpoint,
    {
        self.fcr_store.prev_slot_justified_checkpoint
    }

    /// The unrealized justified checkpoint of the previous slot.
    pub fn prev_slot_unrealized_justified_checkpoint(&self) -> (r: Checkpoint)
        ensures
            r == self@.rule.store.prev_slot_unrealized_justified_checkpoint,
    {
        self.fcr_store.prev_slot_unrealized_justified_checkpoint
    }

    /// The head of the previous slot.
    pub fn prev_slot_head(&self) -> (r: Hash256)
        ensures
            r == self@.rule.store.prev_slot_head,
    {
        self.fcr_store.prev_slot_head
    }

    /// The thresholds.
    pub fn config(&self) -> (r: &FastConfirmationConfig)
        ensures
            *r == self@.rule.config,
    {
        &self.config
    }

    /// The byzantine threshold, in percent.
    pub fn beta_percentage(&self) -> (r: u64)
        ensures
            r == self@.rule.config.beta_percentage,
    {
        self.config.beta_percentage
    }

    /// How many blocks are remembered.
    pub fn metadata_cache_size(&self) -> (r: usize)
        requires
            self.wf(),
        ensures
            self@.meta.dom().finite(),
            r == self@.meta.len(),
    {
        self.meta.len()
    }

    /// What is remembered of a block.
    pub fn get_meta(&self, block_root: &Hash256) -> (r: Option<FcrMeta>)
        requires
            self.wf(),
        ensures
            r == (if self@.meta.contains_key(*block_root) {
                Some(self@.meta[*block_root])
            } else {
                None
            }),
    {
        match self.meta.get(block_root) {
            Some(meta) => Some(*meta),
            None => None,
        }
    }

    /// The safe head and the latest confirmed block, for monitoring.
    pub fn get_safe_head_metrics(&self, proto_array: &ProtoArrayForkChoice) -> (r: SafeHeadMetrics)
        requires
            proto_array.wf(),
        ensures
            r == (SafeHeadMetrics {
                safe_head_root: self@.rule.store.safe_head_root,
                safe_head_slot: slot_or_zero(proto_array@, self@.rule.store.safe_head_root),
                confirmed_root: self@.rule.store.confirmed_root,
            }),
    {
        SafeHeadMetrics {
            safe_head_root: self.fcr_store.safe_head_root,
            safe_head_slot: Self::slot_or_zero(proto_array, self.fcr_store.safe_head_root),
            confirmed_root: self.fcr_store.confirmed_root,
        }
    }

    /// What a well-formed instance keeps.
    pub proof fn lemma_wf(&self)
        requires
            self.wf(),
        ensures
            self@.rule.slots_per_epoch > 0,
            self@.rule.config.beta_percentage <= 100,
    {
    }

    /// The votes behind a block and what they are held against, when its weights are taken from
    /// `state`, or from the justified balances where there is no state. Nothing for the first block
    /// of the tree, and as long as there could be no votes.
    pub fn get_vote_tally(
        &self,
        block_root: Hash256,
        proto_array: &ProtoArrayForkChoice,
        fc_store: &ForkChoiceStore,
        state: &Option<CheckpointState>,
    ) -> (r: Result<Option<VoteTally>, Error>)
        requires
            self.wf(),
            proto_array.wf(),
        ensures
            r == self@.rule.vote_tally(proto_array@, *fc_store, block_root, *state),
            r matches Ok(Some(tally)) ==> {
                let (start, end) = vote_window(
                    proto_array@,
                    *fc_store,
                    proto_array@.block(block_root).parent_root->0,
                );
                &&& tally.committee_weight == committee_weight(
                    start,
                    end,
                    weighting_balance(*fc_store, *state),
                    self@.rule.slots_per_epoch,
                )
                &&& tally.committee_weight <= 2 * u64::MAX
                &&& tally.proposer_score == proposer_score_delta(
                    proto_array@,
                    block_root,
                    tally.support,
                )
            },
    {
        let block = match proto_array.get_block(&block_root) {
            Some(block) => block,
            None => {
                return Err(Error::BlockNotFound(block_root));
            },
        };
        let parent_block = match block.parent_root {
            Some(parent_root) => match proto_array.get_block(&parent_root) {
                Some(parent) => parent,
                None => {
                    return Err(Error::ParentNotFound(parent_root));
                },
            },
            None => {
                return Ok(None);
            },
        };
        let support = match proto_array.get_weight(&block_root, false) {
            Some(weight) => weight,
            None => {
                return Err(Error::WeightNotFound(block_root));
            },
        };
        let start_slot = parent_block.slot.saturating_add(1);
        let end_slot = fc_store.current_slot.saturating_sub(1);
        if start_slot.0 > end_slot.0 {
            return Ok(None);
        }
        let justified_balance = fc_store.justified_balances.total_effective_balance;
        let total_active_balance = match state {
            Some(state) => match state.total_active_balance {
                Some(total) => total,
                None => justified_balance,
            },
            None => justified_balance,
        };
        let committee_weight = get_committee_weight_between_slots(
            start_slot,
            end_slot,
            total_active_balance,
            self.slots_per_epoch,
        );
        let score = match proto_array.get_proposer_score(&block_root) {
            Some(score) => score,
            None => 0,
        };
        let proposer_score = match proto_array.get_weight(&block_root, true) {
            Some(boosted) => if boosted > support {
                boosted - support
            } else {
                score
            },
            None => score,
        };
        Ok(Some(VoteTally { support, committee_weight, proposer_score }))
    }

    /// Whether a block has enough votes to be confirmed, when its weights are taken from `state`,
    /// or from the justified balances where there is no state.
    pub fn check_one_confirmed(
        &self,
        block_root: Hash256,
        proto_array: &ProtoArrayForkChoice,
        fc_store: &ForkChoiceStore,
        state: &Option<CheckpointState>,
    ) -> (r: Result<bool, Error>)
        requires
            self.wf(),
            proto_array.wf(),
        ensures
            r == self@.rule.q_indicator(proto_array@, *fc_store, block_root, *state),
    {
        match self.get_vote_tally(block_root, proto_array, fc_store, state) {
            Ok(Some(tally)) => Ok(
                check_lmd_ghost_confirmation_inequality(
                    tally.support,
                    tally.committee_weight,
                    tally.proposer_score,
                    self.config.beta_percentage,
                ),
            ),
            Ok(None) => Ok(false),
            Err(error) => Err(error),
        }
    }

    /// The state that the weights of blocks are taken from, if the provider can give it.
    pub fn get_weighting_state(&self) -> (r: Option<CheckpointState>)
        ensures
            may_find(
                &self@.rule.provider,
                self@.rule.store.prev_epoch_unrealized_justified_checkpoint,
                r,
            ),
    {
        find_state(
            &self.state_provider,
            &self.fcr_store.prev_epoch_unrealized_justified_checkpoint,
        )
    }

    /// Whether a block has enough votes to be confirmed.
    ///
    /// The weights are taken from the state at the checkpoint that is remembered for them; where the
    /// provider cannot give it, from the justified balances.
    pub fn is_one_confirmed(
        &self,
        block_root: Hash256,
        proto_array: &ProtoArrayForkChoice,
        fc_store: &ForkChoiceStore,
    ) -> (r: Result<bool, Error>)
        requires
            self.wf(),
            proto_array.wf(),
        ensures
            self@.rule.one_confirmed(proto_array@, *fc_store, block_root, r),
    {
        if let Some(block) = proto_array.get_block(&block_root) {
            if let Some(parent_root) = block.parent_root {
                if proto_array.get_block(&parent_root).is_some() {
                    let state = self.get_weighting_state();
                    return self.check_one_confirmed(block_root, proto_array, fc_store, &state);
                }
            }
        }
        self.check_one_confirmed(block_root, proto_array, fc_store, &None)
    }

    /// Whether three times the stake that honest validators can be counted on to give a checkpoint
    /// of the current epoch reaches `share` times the total. The stake is taken from `state`, the
    /// checkpoint's own; without it the answer is no.
    pub fn check_honest_share(
        &self,
        proto_array: &ProtoArrayForkChoice,
        fc_store: &ForkChoiceStore,
        checkpoint: &Checkpoint,
        state: &Option<CheckpointState>,
        share: u64,
    ) -> (r: Result<bool, Error>)
        requires
            self.wf(),
            proto_array.wf(),
        ensures
            r == self@.rule.reaches(proto_array@, *fc_store, *checkpoint, *state, share as int),
    {
        let state = match state {
            Some(state) => state,
            None => {
                return Ok(false);
            },
        };
        let total_active_balance = match state.total_active_balance {
            Some(total) => total,
            None => {
                return Err(Error::TotalActiveBalanceUnavailable);
            },
        };
        let ffg_support_for_checkpoint = get_checkpoint_weight(
            proto_array,
            checkpoint,
            &state.validators,
        );
        let current_epoch = fc_store.current_slot.epoch(self.slots_per_epoch);
        let ffg_weight_till_now = get_ffg_weight_till_slot(
            fc_store.current_slot,
            current_epoch,
            total_active_balance,
            self.slots_per_epoch,
        );
        let honest_weight = get_honest_ffg_weight(
            total_active_balance,
            ffg_weight_till_now,
            ffg_support_for_checkpoint,
            self.config.beta_percentage,
            self.config.slashing_percentage,
        );
        assert(share * total_active_balance <= u64::MAX * u64::MAX) by (nonlinear_arith)
            requires
                share <= u64::MAX,
                total_active_balance <= u64::MAX,
        ;
        Ok(3 * honest_weight >= share as u128 * total_active_balance as u128)
    }

    /// Whether a checkpoint of the current epoch will be justified.
    pub fn will_current_epoch_checkpoint_be_justified(
        &self,
        proto_array: &ProtoArrayForkChoice,
        fc_store: &ForkChoiceStore,
        checkpoint: &Checkpoint,
    ) -> (r: Result<bool, Error>)
        requires
            self.wf(),
            proto_array.wf(),
        ensures
            self@.rule.current_epoch_justified(proto_array@, *fc_store, *checkpoint, r),
    {
        if checkpoint.epoch != fc_store.current_slot.epoch(self.slots_per_epoch) {
            return Err(Error::CheckpointNotInCurrentEpoch);
        }
        let state = find_state(&self.state_provider, checkpoint);
        let ghost rule = self@.rule;
        assert(may_find(&rule.provider, *checkpoint, state));
        self.check_honest_share(proto_array, fc_store, checkpoint, &state, 2)
    }

    /// Whether a checkpoint will be justified, or already is.
    pub fn will_checkpoint_be_justified(
        &self,
        proto_array: &ProtoArrayForkChoice,
        fc_store: &ForkChoiceStore,
        checkpoint: &Checkpoint,
    ) -> (r: Result<bool, Error>)
        requires
            self.wf(),
            proto_array.wf(),
        ensures
            self@.rule.will_be_justified(proto_array@, *fc_store, *checkpoint, r),
    {
        if *checkpoint == fc_store.justified_checkpoint {
            return Ok(true);
        }
        if *checkpoint == fc_store.unrealized_justified_checkpoint {
            return Ok(true);
        }
        if checkpoint.epoch == fc_store.current_slot.epoch(self.slots_per_epoch) {
            return self.will_current_epoch_checkpoint_be_justified(
                proto_array,
                fc_store,
                checkpoint,
            );
        }
        Ok(false)
    }

    /// Whether no checkpoint against the head's chain will be justified.
    pub fn will_no_conflicting_checkpoint_be_justified(
        &self,
        proto_array: &ProtoArrayForkChoice,
        fc_store: &ForkChoiceStore,
        head_root: Hash256,
    ) -> (r: Result<bool, Error>)
        requires
            self.wf(),
            proto_array.wf(),
        ensures
            self@.rule.no_conflict(proto_array@, *fc_store, head_root, r),
    {
        let current_epoch = fc_store.current_slot.epoch(self.slots_per_epoch);
        let checkpoint_root = match get_checkpoint_block(
            proto_array,
            self.slots_per_epoch,
            head_root,
            current_epoch,
        ) {
            Some(root) => root,
            None => head_root,
        };
        let checkpoint = Checkpoint { epoch: current_epoch, root: checkpoint_root };
        let state = find_state(&self.state_provider, &checkpoint);
        let ghost rule = self@.rule;
        assert(checkpoint == rule.head_checkpoint(proto_array@, *fc_store, head_root));
        assert(may_find(&rule.provider, checkpoint, state));
        self.check_honest_share(proto_array, fc_store, &checkpoint, &state, 1)
    }

    /// Whether a block is known to have justified the previous epoch or a later one.
    fn is_recently_justified(
        &self,
        proto_array: &ProtoArrayForkChoice,
        fc_store: &ForkChoiceStore,
        root: Hash256,
    ) -> (r: bool)
        requires
            self.wf(),
            proto_array.wf(),
        ensures
            r == self@.rule.recently_justified(proto_array@, *fc_store, root),
    {
        let current_epoch = fc_store.current_slot.epoch(self.slots_per_epoch);
        match proto_array.get_block(&root) {
            Some(block) => match block.unrealized_justified_checkpoint {
                Some(checkpoint) => checkpoint.epoch.saturating_add(1).0 >= current_epoch.0,
                None => false,
            },
            None => false,
        }
    }

    /// The epoch of most of the votes for a block and those after it.
    fn voting_source(
        &self,
        proto_array: &ProtoArrayForkChoice,
        fc_store: &ForkChoiceStore,
        root: Hash256,
    ) -> (r: Epoch)
        requires
            proto_array.wf(),
        ensures
            self@.rule.voting_source(proto_array@, *fc_store, root, r),
    {
        get_voting_source_epoch(
            proto_array,
            &fc_store.justified_balances.effective_balances,
            root,
            self.fcr_store.prev_slot_unrealized_justified_checkpoint.epoch,
        )
    }

    /// Goes along `path` through the blocks of the previous epoch, as far as they are confirmed.
    #[verifier::spinoff_prover]
    #[verifier::rlimit(40)]
    fn walk_previous_epoch(
        &self,
        path: &Vec<Hash256>,
        proto_array: &ProtoArrayForkChoice,
        fc_store: &ForkChoiceStore,
    ) -> (r: Option<Hash256>)
        requires
            self.wf(),
            proto_array.wf(),
            path@.len() > 0,
        ensures
            exists|n: int|
                self@.rule.prev_epoch_stop(proto_array@, *fc_store, path@, n, r),
    {
        let ghost rule = self@.rule;
        let ghost tree = proto_array@;
        let current_epoch = fc_store.current_slot.epoch(self.slots_per_epoch);
        let mut n: usize = 0;
        while n < path.len() - 1
            invariant
                self.wf(),
                proto_array.wf(),
                rule == self@.rule,
                tree == proto_array@,
                current_epoch == rule.current_epoch(*fc_store),
                n < path@.len(),
                rule.prev_epoch_advance(tree, *fc_store, path@, n as int),
            decreases path@.len() - n,
        {
            let next = path[n + 1];
            let is_candidate = match proto_array.get_block(&next) {
                Some(block) => block.slot.epoch(self.slots_per_epoch) != current_epoch
                    && proto_array.is_descendant(self.fcr_store.prev_slot_head, next),
                None => false,
            };
            assert(is_candidate == rule.prev_epoch_candidate(tree, *fc_store, next));
            if !is_candidate {
                assert(rule.prev_epoch_stop(tree, *fc_store, path@, n as int, Some(path[n as int])));
                return Some(path[n]);
            }
            match self.is_one_confirmed(next, proto_array, fc_store) {
                Ok(is_confirmed) => {
                    if !is_confirmed {
                        assert(rule.prev_epoch_stop(
                            tree,
                            *fc_store,
                            path@,
                            n as int,
                            Some(path[n as int]),
                        ));
                        return Some(path[n]);
                    }
                },
                Err(error) => {
                    assert(rule.one_confirmed(tree, *fc_store, next, Err(error)));
                    assert(rule.prev_epoch_stop(tree, *fc_store, path@, n as int, None));
                    return None;
                },
            }
            n = n + 1;
        }
        assert(rule.prev_epoch_stop(tree, *fc_store, path@, n as int, Some(path[n as int])));
        Some(path[n])
    }

    /// Goes from `from` towards the head through the previous epoch.
    fn advance_through_previous_epoch(
        &self,
        from: Hash256,
        proto_array: &ProtoArrayForkChoice,
        fc_store: &ForkChoiceStore,
        head_root: Hash256,
    ) -> (r: Option<Hash256>)
        requires
            self.wf(),
            proto_array.wf(),
            proto_array@.known(from),
        ensures
            self@.rule.through_previous_epoch(proto_array@, *fc_store, from, head_root, r),
    {
        let ghost rule = self@.rule;
        let ghost tree = proto_array@;
        let current_epoch = fc_store.current_slot.epoch(self.slots_per_epoch);
        let from_epoch = match proto_array.get_block(&from) {
            Some(block) => block.slot.epoch(self.slots_per_epoch),
            None => current_epoch,
        };
        if from_epoch.saturating_add(1) != current_epoch {
            return Some(from);
        }
        let source = self.voting_source(proto_array, fc_store, self.fcr_store.prev_slot_head);
        let is_voting_source_ok = source.saturating_add(2).0 >= current_epoch.0;
        let is_at_epoch_boundary = fc_store.current_slot.is_epoch_start(self.slots_per_epoch);
        let conflict = self.will_no_conflicting_checkpoint_be_justified(
            proto_array,
            fc_store,
            head_root,
        );
        let no_conflicting_checkpoint = match conflict {
            Ok(answer) => answer,
            Err(_) => false,
        };
        let is_open = is_voting_source_ok && (is_at_epoch_boundary || (no_conflicting_checkpoint && (
        self.is_recently_justified(proto_array, fc_store, self.fcr_store.prev_slot_head)
            || self.is_recently_justified(proto_array, fc_store, head_root))));
        assert(rule.voting_source(tree, *fc_store, rule.store.prev_slot_head, source));
        assert(rule.no_conflict(tree, *fc_store, head_root, conflict));
        assert(is_open == rule.prev_epoch_open(tree, *fc_store, head_root, source, conflict));
        if !is_open {
            return Some(from);
        }
        match get_canonical_roots(proto_array, from, head_root) {
            Some(path) => {
                proof {
                    proto_array.lemma_valid();
                    lemma_canonical_roots(tree, from, head_root);
                }
                self.walk_previous_epoch(&path, proto_array, fc_store)
            },
            None => Some(from),
        }
    }

    /// Whether the walk may step from `tentative` to `next`.
    fn is_step_allowed(
        &self,
        tentative: Hash256,
        next: Hash256,
        proto_array: &ProtoArrayForkChoice,
        fc_store: &ForkChoiceStore,
    ) -> (r: bool)
        requires
            self.wf(),
            proto_array.wf(),
        ensures
            self@.rule.step_allowed(proto_array@, *fc_store, tentative, next, r),
    {
        let ghost rule = self@.rule;
        let block_epoch = match proto_array.get_block(&next) {
            Some(block) => block.slot.epoch(self.slots_per_epoch),
            None => {
                return false;
            },
        };
        let tentative_epoch = match proto_array.get_block(&tentative) {
            Some(block) => block.slot.epoch(self.slots_per_epoch),
            None => block_epoch,
        };
        if block_epoch.0 <= tentative_epoch.0 {
            return true;
        }
        match get_checkpoint_block(proto_array, self.slots_per_epoch, next, block_epoch) {
            Some(checkpoint_root) => {
                let checkpoint = Checkpoint { epoch: block_epoch, root: checkpoint_root };
                let outcome = self.will_checkpoint_be_justified(
                    proto_array,
                    fc_store,
                    &checkpoint,
                );
                assert(rule.will_be_justified(proto_array@, *fc_store, checkpoint, outcome));
                match outcome {
                    Ok(justified) => justified,
                    Err(_) => false,
                }
            },
            None => false,
        }
    }

    /// Goes along `path` as far as the steps are allowed and the blocks are confirmed.
    #[verifier::spinoff_prover]
    #[verifier::rlimit(40)]
    fn walk_current_epoch(
        &self,
        path: &Vec<Hash256>,
        proto_array: &ProtoArrayForkChoice,
        fc_store: &ForkChoiceStore,
    ) -> (r: Option<Hash256>)
        requires
            self.wf(),
            proto_array.wf(),
            path@.len() > 0,
        ensures
            exists|n: int|
                self@.rule.current_epoch_stop(proto_array@, *fc_store, path@, n, r),
    {
        let ghost rule = self@.rule;
        let ghost tree = proto_array@;
        let mut n: usize = 0;
        while n < path.len() - 1
            invariant
                self.wf(),
                proto_array.wf(),
                rule == self@.rule,
                tree == proto_array@,
                n < path@.len(),
                rule.current_epoch_advance(tree, *fc_store, path@, n as int),
            decreases path@.len() - n,
        {
            let ghost reached = Some(path[n as int]);
            let next = path[n + 1];
            if !self.is_step_allowed(path[n], next, proto_array, fc_store) {
                assert(rule.current_epoch_stop(tree, *fc_store, path@, n as int, reached));
                return Some(path[n]);
            }
            match self.is_one_confirmed(next, proto_array, fc_store) {
                Ok(is_confirmed) => {
                    if !is_confirmed {
                        assert(rule.current_epoch_stop(tree, *fc_store, path@, n as int, reached));
                        return Some(path[n]);
                    }
                },
                Err(error) => {
                    assert(rule.one_confirmed(tree, *fc_store, next, Err(error)));
                    assert(rule.current_epoch_stop(tree, *fc_store, path@, n as int, None));
                    return None;
                },
            }
            n = n + 1;
        }
        assert(rule.current_epoch_stop(tree, *fc_store, path@, n as int, Some(path[n as int])));
        Some(path[n])
    }

    /// Whether it is safe to take up `tentative`.
    fn is_safe_to_advance(
        &self,
        tentative: Hash256,
        proto_array: &ProtoArrayForkChoice,
        fc_store: &ForkChoiceStore,
        head_root: Hash256,
    ) -> (r: bool)
        requires
            self.wf(),
            proto_array.wf(),
        ensures
            self@.rule.safe_to_advance(proto_array@, *fc_store, head_root, tentative, r),
    {
        let ghost rule = self@.rule;
        let ghost tree = proto_array@;
        let current_epoch = fc_store.current_slot.epoch(self.slots_per_epoch);
        let tentative_epoch = match proto_array.get_block(&tentative) {
            Some(block) => block.slot.epoch(self.slots_per_epoch),
            None => current_epoch,
        };
        if tentative_epoch == current_epoch {
            let source = self.voting_source(proto_array, fc_store, tentative);
            assert(rule.voting_source(tree, *fc_store, tentative, source));
            source.saturating_add(2).0 >= current_epoch.0
        } else if fc_store.current_slot.is_epoch_start(self.slots_per_epoch) {
            let conflict = self.will_no_conflicting_checkpoint_be_justified(
                proto_array,
                fc_store,
                head_root,
            );
            assert(rule.no_conflict(tree, *fc_store, head_root, conflict));
            match conflict {
                Ok(answer) => answer,
                Err(_) => false,
            }
        } else {
            false
        }
    }

    /// Goes from `from` towards the head through the current epoch.
    fn advance_through_current_epoch(
        &self,
        from: Hash256,
        proto_array: &ProtoArrayForkChoice,
        fc_store: &ForkChoiceStore,
        head_root: Hash256,
    ) -> (r: Option<Hash256>)
        requires
            self.wf(),
            proto_array.wf(),
        ensures
            self@.rule.through_current_epoch(proto_array@, *fc_store, from, head_root, r),
    {
        let ghost rule = self@.rule;
        let ghost tree = proto_array@;
        if !fc_store.current_slot.is_epoch_start(self.slots_per_epoch)
            && !self.is_recently_justified(proto_array, fc_store, self.fcr_store.prev_slot_head)
            && !self.is_recently_justified(proto_array, fc_store, head_root) {
            return Some(from);
        }
        let tentative = match get_canonical_roots(proto_array, from, head_root) {
            Some(path) => {
                proof {
                    proto_array.lemma_valid();
                    lemma_canonical_roots(tree, from, head_root);
                }
                self.walk_current_epoch(&path, proto_array, fc_store)
            },
            None => Some(from),
        };
        assert(rule.tentative(tree, *fc_store, from, head_root, tentative));
        let root = match tentative {
            Some(root) => root,
            None => {
                return None;
            },
        };
        if self.is_safe_to_advance(root, proto_array, fc_store, head_root) {
            Some(root)
        } else {
            Some(from)
        }
    }

    /// The latest confirmed block on the way from `confirmed_root` to the head, or nothing if
    /// `confirmed_root` is not known or a block on the way cannot be checked.
    pub fn find_latest_confirmed_descendant(
        &self,
        confirmed_root: Hash256,
        proto_array: &ProtoArrayForkChoice,
        fc_store: &ForkChoiceStore,
        head_root: Hash256,
    ) -> (r: Option<Hash256>)
        requires
            self.wf(),
            proto_array.wf(),
        ensures
            self@.rule.latest_descendant(proto_array@, *fc_store, confirmed_root, head_root, r),
    {
        let ghost rule = self@.rule;
        let ghost tree = proto_array@;
        if proto_array.get_block(&confirmed_root).is_none() {
            return None;
        }
        let reached = self.advance_through_previous_epoch(
            confirmed_root,
            proto_array,
            fc_store,
            head_root,
        );
        assert(rule.through_previous_epoch(tree, *fc_store, confirmed_root, head_root, reached));
        match reached {
            Some(root) => self.advance_through_current_epoch(
                root,
                proto_array,
                fc_store,
                head_root,
            ),
            None => None,
        }
    }

    /// The slot of a block, or zero if it is not known.
    fn slot_or_zero(proto_array: &ProtoArrayForkChoice, root: Hash256) -> (r: u64)
        requires
            proto_array.wf(),
        ensures
            r == slot_or_zero(proto_array@, root),
    {
        match proto_array.get_block(&root) {
            Some(block) => block.slot.as_u64(),
            None => 0,
        }
    }

    /// The slot of a block, or `other` if it is not known.
    fn slot_or(proto_array: &ProtoArrayForkChoice, root: Hash256, other: Slot) -> (r: Slot)
        requires
            proto_array.wf(),
        ensures
            r == slot_or(proto_array@, root, other),
    {
        match proto_array.get_block(&root) {
            Some(block) => block.slot,
            None => other,
        }
    }

    /// Whether the rule has to go back to the finalized block.
    fn must_restart(
        &self,
        proto_array: &ProtoArrayForkChoice,
        fc_store: &ForkChoiceStore,
        head_root: Hash256,
    ) -> (r: bool)
        requires
            self.wf(),
            proto_array.wf(),
        ensures
            r == self@.rule.must_restart(proto_array@, *fc_store, head_root),
    {
        let confirmed_root = self.fcr_store.confirmed_root;
        let current_epoch = fc_store.current_slot.epoch(self.slots_per_epoch);
        match proto_array.get_block(&confirmed_root) {
            Some(block) => {
                let confirmed_epoch = block.slot.epoch(self.slots_per_epoch);
                !proto_array.is_descendant(confirmed_root, head_root)
                    || confirmed_epoch.saturating_add(1).0 < current_epoch.0
            },
            None => true,
        }
    }

    /// Why the rule went back to the finalized block, if it did, and `latest_root` came out in the
    /// end.
    fn get_restart(
        &self,
        proto_array: &ProtoArrayForkChoice,
        fc_store: &ForkChoiceStore,
        head_root: Hash256,
        latest_root: Hash256,
    ) -> (r: Option<Restart>)
        requires
            self.wf(),
            proto_array.wf(),
        ensures
            r == self@.rule.restart(proto_array@, *fc_store, head_root, latest_root),
    {
        if !self.must_restart(proto_array, fc_store, head_root) {
            return None;
        }
        let confirmed_root = self.fcr_store.confirmed_root;
        if let Some(confirmed) = proto_array.get_block(&confirmed_root) {
            if !proto_array.is_descendant(confirmed_root, head_root) {
                let slots = match proto_array.get_block(&latest_root) {
                    Some(latest) => Some(confirmed.slot.0.saturating_sub(latest.slot.0)),
                    None => None,
                };
                return Some(Restart::Reorg(slots));
            }
        }
        Some(Restart::Stale)
    }

    /// Whether the previous slot's unrealized justified block takes the place of `root`.
    fn is_uplifted(
        &self,
        root: Hash256,
        proto_array: &ProtoArrayForkChoice,
        fc_store: &ForkChoiceStore,
    ) -> (r: bool)
        requires
            self.wf(),
            proto_array.wf(),
        ensures
            r == self@.rule.uplifts(proto_array@, *fc_store, root),
    {
        if !fc_store.current_slot.is_epoch_start(self.slots_per_epoch) {
            return false;
        }
        let checkpoint = self.fcr_store.prev_slot_unrealized_justified_checkpoint;
        let current_epoch = fc_store.current_slot.epoch(self.slots_per_epoch);
        if checkpoint.epoch.saturating_add(1) != current_epoch {
            return false;
        }
        match (proto_array.get_block(&root), proto_array.get_block(&checkpoint.root)) {
            (Some(confirmed_block), Some(justified_block)) => confirmed_block.slot.0
                < justified_block.slot.0,
            _ => false,
        }
    }

    /// The latest confirmed block, and how the rule comes to it.
    ///
    /// The rule starts from the confirmed block, or from the finalized one where the confirmed
    /// block is missing, too old or off the head's chain; goes up to the previous slot's unrealized
    /// justified block in the first slot of an epoch; and then advances along the head's chain.
    pub fn assess_latest_confirmed(
        &self,
        proto_array: &ProtoArrayForkChoice,
        fc_store: &ForkChoiceStore,
        head_root: Hash256,
    ) -> (r: LatestConfirmation)
        requires
            self.wf(),
            proto_array.wf(),
        ensures
            self@.rule.assessed(proto_array@, *fc_store, head_root, r),
    {
        let start = if self.must_restart(proto_array, fc_store, head_root) {
            fc_store.finalized_checkpoint.root
        } else {
            self.fcr_store.confirmed_root
        };
        let base = if self.is_uplifted(start, proto_array, fc_store) {
            self.fcr_store.prev_slot_unrealized_justified_checkpoint.root
        } else {
            start
        };
        assert(base == self@.rule.base_root(proto_array@, *fc_store, head_root));
        let root = match self.find_latest_confirmed_descendant(
            base,
            proto_array,
            fc_store,
            head_root,
        ) {
            Some(new_confirmed) => new_confirmed,
            None => base,
        };
        let restart = self.get_restart(proto_array, fc_store, head_root, root);
        let rollback_slots = match (
            proto_array.get_block(&self.fcr_store.confirmed_root),
            proto_array.get_block(&root),
        ) {
            (Some(before), Some(now)) => if now.slot.0 < before.slot.0 {
                Some(before.slot.0 - now.slot.0)
            } else {
                None
            },
            _ => None,
        };
        LatestConfirmation { root, restart, rollback_slots }
    }

    /// The latest confirmed block.
    pub fn get_latest_confirmed(
        &self,
        proto_array: &ProtoArrayForkChoice,
        fc_store: &ForkChoiceStore,
        head_root: Hash256,
    ) -> (r: Option<Hash256>)
        requires
            self.wf(),
            proto_array.wf(),
        ensures
            r is Some,
            self@.rule.latest_confirmed(proto_array@, *fc_store, head_root, r->0),
    {
        Some(self.assess_latest_confirmed(proto_array, fc_store, head_root).root)
    }

    /// Takes note of a block, unless it was seen before.
    pub fn track_block_creation(&mut self, block_root: Hash256, block_slot: Slot)
        requires
            old(self).wf(),
        ensures
            final(self).wf(),
            final(self)@ == old(self)@.with_meta(
                tracked_meta(old(self)@.meta, block_root, block_slot),
            ),
    {
        if !self.meta.contains_key(&block_root) {
            self.meta.insert(
                block_root,
                FcrMeta {
                    support: 0,
                    committee_weight: 0,
                    confirmed: false,
                    block_creation_slot: block_slot,
                    confirmation_slot: None,
                },
            );
        }
    }

    /// Takes note of a block that the tree knows, unless it was seen before.
    fn track_if_known(&mut self, proto_array: &ProtoArrayForkChoice, block_root: Hash256)
        requires
            old(self).wf(),
            proto_array.wf(),
        ensures
            final(self).wf(),
            final(self)@ == old(self)@.with_meta(
                track_known(old(self)@.meta, proto_array@, block_root),
            ),
    {
        if let Some(block) = proto_array.get_block(&block_root) {
            self.track_block_creation(block_root, block.slot);
        }
    }

    /// Marks a block as confirmed in `current_slot`, and with it the blocks after it that are
    /// remembered. Says what there is to record of the block itself.
    pub fn mark_confirmed(
        &mut self,
        block_root: Hash256,
        proto_array: &ProtoArrayForkChoice,
        current_slot: Slot,
        head_slot: Slot,
    ) -> (r: ConfirmationRecord)
        requires
            old(self).wf(),
            proto_array.wf(),
        ensures
            final(self).wf(),
            final(self)@ == old(self)@.with_meta(
                marked_meta(old(self)@.meta, proto_array@, block_root, current_slot),
            ),
            r == marked_record(
                old(self)@.meta,
                proto_array@,
                block_root,
                current_slot,
                head_slot,
                old(self)@.rule.slots_per_epoch,
            ),
    {
        let ghost before = self@.meta;
        let block_slot = match proto_array.get_block(&block_root) {
            Some(block) => Some(block.slot),
            None => None,
        };
        let mut delay_slots: Option<u64> = Some(0);
        let mut meta = FcrMeta {
            support: 0,
            committee_weight: 0,
            confirmed: true,
            block_creation_slot: match block_slot {
                Some(slot) => slot,
                None => current_slot,
            },
            confirmation_slot: Some(current_slot),
        };
        if let Some(seen) = self.meta.get(&block_root) {
            delay_slots = current_slot.0.checked_sub(seen.block_creation_slot.0);
            meta.support = seen.support;
            meta.committee_weight = seen.committee_weight;
            meta.block_creation_slot = seen.block_creation_slot;
        }
        self.meta.insert(block_root, meta);
        self.confirm_descendants(block_root, proto_array, current_slot);
        assert(self@.meta =~= marked_meta(before, proto_array@, block_root, current_slot));
        confirmation_record(
            delay_slots,
            current_slot,
            head_slot,
            block_slot,
            self.slots_per_epoch,
        )
    }

    /// Marks the blocks after `block_root` that are remembered as confirmed in `current_slot`.
    fn confirm_descendants(
        &mut self,
        block_root: Hash256,
        proto_array: &ProtoArrayForkChoice,
        current_slot: Slot,
    )
        requires
            old(self).wf(),
            proto_array.wf(),
        ensures
            final(self).wf(),
            final(self)@.rule == old(self)@.rule,
            final(self)@.meta.dom() == old(self)@.meta.dom(),
            forall|other: Hash256| #[trigger]
                old(self)@.meta.contains_key(other) ==> final(self)@.meta[other] == (if inherits(
                    old(self)@.meta,
                    proto_array@,
                    block_root,
                    other,
                ) {
                    confirmed_in(old(self)@.meta[other], current_slot)
                } else {
                    old(self)@.meta[other]
                }),
    {
        let ghost before = self@.meta;
        let ghost order = self.meta.order();
        let ghost tree = proto_array@;
        let count = self.meta.len();
        proof {
            self.meta.lemma_order();
        }
        let mut i: usize = 0;
        while i < count
            invariant
                self.wf(),
                proto_array.wf(),
                tree == proto_array@,
                before == old(self)@.meta,
                self@.rule == old(self)@.rule,
                self.meta.order() == order,
                order.no_duplicates(),
                order.len() == count,
                i <= count,
                self@.meta.dom() =~= before.dom(),
                forall|j: int|
                    #![trigger order[j]]
                    0 <= j < i ==> self@.meta[order[j]] == (if inherits(
                        before,
                        tree,
                        block_root,
                        order[j],
                    ) {
                        confirmed_in(before[order[j]], current_slot)
                    } else {
                        before[order[j]]
                    }),
                forall|j: int|
                    #![trigger order[j]]
                    i <= j < count ==> self@.meta[order[j]] == before[order[j]],
            decreases count - i,
        {
            let (other, seen) = self.meta.entry(i);
            let mut meta = *seen;
            if !meta.confirmed && proto_array.is_descendant(block_root, other) {
                meta.confirmed = true;
                meta.confirmation_slot = Some(current_slot);
                self.meta.insert(other, meta);
            }
            i = i + 1;
        }
        proof {
            self.meta.lemma_order();
            assert forall|other: Hash256| #[trigger] before.contains_key(other) implies self@.meta[other]
                == (if inherits(before, tree, block_root, other) {
                confirmed_in(before[other], current_slot)
            } else {
                before[other]
            }) by {
                assert(self.meta@.contains_key(other));
                let j = order.index_of(other);
                assert(order[j] == other);
            }
        }
    }

    /// Brings the instance up to date at the start of a slot: finds the latest confirmed block,
    /// makes it the safe head, and takes note of the checkpoints and the head for the next slot.
    pub fn update_per_slot(
        &mut self,
        proto_array: &ProtoArrayForkChoice,
        fc_store: &ForkChoiceStore,
        head_root: Hash256,
    ) -> (r: Result<SlotUpdate, Error>)
        requires
            old(self).wf(),
            proto_array.wf(),
        ensures
            final(self).wf(),
            r matches Ok(update) && old(self)@.slot_updated(
                proto_array@,
                *fc_store,
                head_root,
                final(self)@,
                update,
            ),
    {
        let prev_confirmed = self.fcr_store.confirmed_root;
        let prev_safe_head = self.fcr_store.safe_head_root;
        let latest = self.assess_latest_confirmed(proto_array, fc_store, head_root);
        let epoch_boundary = fc_store.current_slot.is_epoch_start(self.slots_per_epoch);
        self.fcr_store.confirmed_root = latest.root;
        self.fcr_store.safe_head_root = latest.root;
        let mut confirmation: Option<ConfirmationRecord> = None;
        if latest.root != prev_confirmed {
            self.track_if_known(proto_array, latest.root);
            let head_slot = Self::slot_or(proto_array, head_root, fc_store.current_slot);
            confirmation = Some(
                self.mark_confirmed(latest.root, proto_array, fc_store.current_slot, head_slot),
            );
        }
        self.fcr_store.prev_slot_justified_checkpoint = fc_store.justified_checkpoint;
        self.fcr_store.prev_slot_unrealized_justified_checkpoint =
        fc_store.unrealized_justified_checkpoint;
        if epoch_boundary {
            self.fcr_store.prev_epoch_unrealized_justified_checkpoint =
            fc_store.unrealized_justified_checkpoint;
        }
        self.fcr_store.prev_slot_head = head_root;
        let reorg_distance = Self::get_reorg_distance(proto_array, prev_safe_head, latest.root);
        Ok(SlotUpdate { epoch_boundary, latest, confirmation, reorg_distance })
    }

    /// Brings the instance up to date after a new head was found: looks for a confirmed block among
    /// the head and those before it, unless the safe head is still one of them.
    #[verifier::spinoff_prover]
    #[verifier::rlimit(40)]
    pub fn update_after_find_head(
        &mut self,
        head_root: Hash256,
        proto_array: &ProtoArrayForkChoice,
        fc_store: &ForkChoiceStore,
    ) -> (r: Result<HeadUpdate, Error>)
        requires
            old(self).wf(),
            proto_array.wf(),
        ensures
            final(self).wf(),
            old(self)@.head_updated(proto_array@, *fc_store, head_root, final(self)@, r),
    {
        let ghost before = self@;
        let ghost tree = proto_array@;
        let ghost line = tree.lineage(head_root);
        self.track_if_known(proto_array, head_root);
        if !self.fcr_store.safe_head_root.is_zero() && self.is_ancestor(
            proto_array,
            head_root,
            self.fcr_store.safe_head_root,
        ) {
            return Ok(
                HeadUpdate { confirmed_ancestor: None, confirmation: None, reorg_distance: None },
            );
        }
        let prev_safe_head = self.fcr_store.safe_head_root;
        let mut current_root = head_root;
        let mut depth: usize = 0;
        proof {
            proto_array.lemma_valid();
            tree.lemma_lineage_step(head_root);
            reveal_with_fuel(track_line, 2);
        }
        while depth < MAX_REORG_DEPTH
            invariant
                self.wf(),
                proto_array.wf(),
                tree == proto_array@,
                tree.valid(),
                line == tree.lineage(head_root),
                depth < line.len(),
                depth <= MAX_REORG_DEPTH,
                line[depth as int] == current_root,
                before == old(self)@,
                prev_safe_head == before.rule.store.safe_head_root,
                !before.keeps_safe_head(tree, head_root),
                self@ == before.with_meta(
                    track_line(
                        before.meta,
                        tree,
                        line,
                        if depth == 0 {
                            1
                        } else {
                            depth as int
                        },
                    ),
                ),
                before.scanned_past(tree, *fc_store, line, depth as int),
            decreases MAX_REORG_DEPTH - depth,
        {
            let ghost n = depth as int;
            self.track_if_known(proto_array, current_root);
            let ghost seen = self@;
            proof {
                reveal_with_fuel(track_line, 2);
                assert(seen == before.with_meta(track_line(before.meta, tree, line, n + 1)));
                lemma_track_line(before.meta, tree, line, n + 1, current_root);
                assert(seen.is_confirmed(current_root) == before.is_confirmed(current_root));
            }
            if self.is_block_confirmed(&current_root) {
                self.fcr_store.safe_head_root = current_root;
                let r = Ok(
                    HeadUpdate {
                        confirmed_ancestor: Some(current_root),
                        confirmation: None,
                        reorg_distance: Self::get_reorg_distance(
                            proto_array,
                            prev_safe_head,
                            current_root,
                        ),
                    },
                );
                assert(before.scan_stop(tree, *fc_store, head_root, n, self@, r));
                return r;
            }
            match self.is_one_confirmed(current_root, proto_array, fc_store) {
                Err(error) => {
                    let r = Err(error);
                    assert(before.scan_stop(tree, *fc_store, head_root, n, self@, r));
                    return r;
                },
                Ok(lmd_ok) => {
                    if lmd_ok {
                        let current_slot = fc_store.current_slot;
                        let head_slot = Self::slot_or(proto_array, head_root, current_slot);
                        let confirmation = self.mark_confirmed(
                            current_root,
                            proto_array,
                            current_slot,
                            head_slot,
                        );
                        self.fcr_store.safe_head_root = current_root;
                        let r = Ok(
                            HeadUpdate {
                                confirmed_ancestor: Some(current_root),
                                confirmation: Some(confirmation),
                                reorg_distance: Self::get_reorg_distance(
                                    proto_array,
                                    prev_safe_head,
                                    current_root,
                                ),
                            },
                        );
                        assert(before.scan_stop(tree, *fc_store, head_root, n, self@, r));
                        return r;
                    }
                },
            }
            let parent_root = match proto_array.get_block(&current_root) {
                Some(block) => block.parent_root,
                None => None,
            };
            proof {
                tree.lemma_lineage_end(head_root);
                if n + 1 < line.len() {
                    tree.lemma_lineage_parent(head_root, n);
                }
            }
            match parent_root {
                Some(parent_root) => {
                    current_root = parent_root;
                    depth = depth + 1;
                },
                None => {
                    let r = Ok(
                        HeadUpdate {
                            confirmed_ancestor: None,
                            confirmation: None,
                            reorg_distance: None,
                        },
                    );
                    assert(before.scan_stop(tree, *fc_store, head_root, n, self@, r));
                    return r;
                },
            }
        }
        let r = Ok(
            HeadUpdate { confirmed_ancestor: None, confirmation: None, reorg_distance: None },
        );
        proof {
            let last = MAX_REORG_DEPTH - 1;
            assert(!before.is_confirmed(line[last]));
            assert(before.scan_stop(tree, *fc_store, head_root, last, self@, r));
        }
        r
    }

    /// The blocks that are given up when the safe head moves to a block that does not come after
    /// the old one.
    fn get_reorg_distance(
        proto_array: &ProtoArrayForkChoice,
        old_safe_head: Hash256,
        new_safe_head: Hash256,
    ) -> (r: Option<u64>)
        requires
            proto_array.wf(),
        ensures
            r == safe_head_reorg(proto_array@, old_safe_head, new_safe_head),
    {
        let ghost tree = proto_array@;
        let ghost line = tree.lineage(old_safe_head);
        if old_safe_head.is_zero() || old_safe_head == new_safe_head || proto_array.is_descendant(
            old_safe_head,
            new_safe_head,
        ) {
            return None;
        }
        let ghost mut i: int = 0;
        let mut distance: u64 = 0;
        let mut current_root = old_safe_head;
        proof {
            proto_array.lemma_valid();
            tree.lemma_lineage_step(old_safe_head);
            assert(line.skip(0) =~= line);
        }
        while current_root != new_safe_head && !proto_array.is_descendant(
            current_root,
            new_safe_head,
        )
            invariant
                proto_array.wf(),
                tree == proto_array@,
                tree.valid(),
                line == tree.lineage(old_safe_head),
                old_safe_head != Hash256::spec_zero(),
                !is_ancestor(tree, new_safe_head, old_safe_head),
                0 <= i < line.len(),
                line[i] == current_root,
                distance == cap(i),
                unshared(tree, line, new_safe_head) == i + unshared(
                    tree,
                    line.skip(i),
                    new_safe_head,
                ),
            decreases line.len() - i,
        {
            proof {
                tree.lemma_lineage_end(old_safe_head);
                assert(line.skip(i)[0] == current_root);
                assert(line.skip(i).skip(1) =~= line.skip(i + 1));
                assert(unshared(tree, line.skip(i), new_safe_head) == 1 + unshared(
                    tree,
                    line.skip(i + 1),
                    new_safe_head,
                ));
                if i + 1 < line.len() {
                    tree.lemma_lineage_parent(old_safe_head, i);
                }
            }
            distance = distance.saturating_add(1);
            let parent_root = match proto_array.get_block(&current_root) {
                Some(block) => block.parent_root,
                None => None,
            };
            match parent_root {
                Some(parent_root) => {
                    current_root = parent_root;
                    proof {
                        i = i + 1;
                    }
                },
                None => {
                    assert(unshared(tree, line.skip(i + 1), new_safe_head) == 0);
                    return Some(distance);
                },
            }
        }
        assert(line.skip(i)[0] == current_root);
        Some(distance)
    }

    /// Whether a block is marked as confirmed.
    pub fn is_block_confirmed(&self, block_root: &Hash256) -> (r: bool)
        requires
            self.wf(),
        ensures
            r == self@.is_confirmed(*block_root),
    {
        match self.meta.get(block_root) {
            Some(meta) => meta.confirmed,
            None => false,
        }
    }

    /// Whether `ancestor` is `root` or comes before it.
    pub fn is_ancestor(
        &self,
        proto_array: &ProtoArrayForkChoice,
        root: Hash256,
        ancestor: Hash256,
    ) -> (r: bool)
        requires
            proto_array.wf(),
        ensures
            r == is_ancestor(proto_array@, root, ancestor),
    {
        if root == ancestor {
            return true;
        }
        proto_array.is_descendant(ancestor, root)
    }

    /// Brings the instance up to date when a slot begins.
    pub fn on_new_slot(
        &mut self,
        proto_array: &ProtoArrayForkChoice,
        fc_store: &ForkChoiceStore,
        head_root: Hash256,
    ) -> (r: Result<SlotUpdate, Error>)
        requires
            old(self).wf(),
            proto_array.wf(),
        ensures
            final(self).wf(),
            r matches Ok(update) && old(self)@.slot_updated(
                proto_array@,
                *fc_store,
                head_root,
                final(self)@,
                update,
            ),
    {
        self.update_per_slot(proto_array, fc_store, head_root)
    }

    /// Brings the instance up to date when a slot begins, with the head of the fork choice's own
    /// update.
    pub fn on_new_slot_with_params(
        &mut self,
        proto_array: &ProtoArrayForkChoice,
        fc_store: &ForkChoiceStore,
        forkchoice_params: &ForkchoiceUpdateParameters,
    ) -> (r: Result<SlotUpdate, Error>)
        requires
            old(self).wf(),
            proto_array.wf(),
        ensures
            final(self).wf(),
            r matches Ok(update) && old(self)@.slot_updated(
                proto_array@,
                *fc_store,
                forkchoice_params.head_root,
                final(self)@,
                update,
            ),
    {
        self.on_new_slot(proto_array, fc_store, forkchoice_params.head_root)
    }

    /// Forgets the blocks that the tree no longer knows, and those of slots before the finalized
    /// block's.
    pub fn prune(&mut self, finalized_root: Hash256, proto_array: &ProtoArrayForkChoice) -> (r:
        Result<(), Error>)
        requires
            old(self).wf(),
            proto_array.wf(),
        ensures
            final(self).wf(),
            if proto_array@.known(finalized_root) {
                &&& r == Ok::<(), Error>(())
                &&& final(self)@ == old(self)@.with_meta(
                    pruned_meta(old(self)@.meta, proto_array@, finalized_root),
                )
            } else {
                &&& r == Err::<(), Error>(Error::FinalizedBlockNotFound)
                &&& final(self)@ == old(self)@
            },
    {
        let finalized_slot = match proto_array.get_block(&finalized_root) {
            Some(block) => block.slot,
            None => {
                return Err(Error::FinalizedBlockNotFound);
            },
        };
        let keep = |root: &Hash256| -> (kept: bool)
            ensures
                kept == outlives(proto_array@, finalized_root, *root),
            {
                match proto_array.get_block(root) {
                    Some(block) => block.slot.0 >= finalized_slot.0,
                    None => false,
                }
            };
        self.meta.retain(keep, Ghost(|root: Hash256| outlives(proto_array@, finalized_root, root)));
        Ok(())
    }
}

} // verus!
