use fork_choice::metrics::{DelayBucket, HeadUpdate, SlotUpdate};
use fork_choice::proto_array::{BlockWeights, ProtoNode};
use fork_choice::state_provider::CheckpointValidator;
use fork_choice::{
    Checkpoint, CheckpointState, Epoch, Error, FastConfirmation, FastConfirmationConfig,
    ForkChoiceStore, ForkchoiceUpdateParameters, Hash256, JustifiedBalances, LatestMessage,
    ProtoArrayForkChoice, ProtoBlock, Slot, StateProvider,
    DEFAULT_FCR_BYZANTINE_THRESHOLD_PERCENTAGE,
};

const SLOTS: u64 = 8;
const VALIDATORS: usize = 64;
const BALANCE: u64 = 32_000_000_000;

struct Provider {
    has_states: bool,
}

impl StateProvider for Provider {
    type Error = String;

    fn get_checkpoint_state(
        &self,
        _checkpoint: &Checkpoint,
    ) -> Result<Option<CheckpointState>, String> {
        if self.has_states {
            Ok(Some(CheckpointState {
                total_active_balance: Some(VALIDATORS as u64 * BALANCE),
                validators: vec![
                    CheckpointValidator { effective_balance: BALANCE, slashed: false };
                    VALIDATORS
                ],
            }))
        } else {
            Err("no state".to_string())
        }
    }

    fn get_total_active_balance_at_epoch(&self, _epoch: Epoch) -> Result<u64, String> {
        Ok(VALIDATORS as u64 * BALANCE)
    }
}

/// A chain on which every committee votes for the head of its slot.
struct Chain {
    fcr: FastConfirmation<Provider>,
    blocks: Vec<ProtoBlock>,
    votes: Vec<Option<LatestMessage>>,
    slot: Slot,
    head: Hash256,
    justified: Checkpoint,
    unrealized: Checkpoint,
    finalized: Checkpoint,
    slot_updates: Vec<SlotUpdate>,
    head_updates: Vec<Result<HeadUpdate, Error>>,
}

fn root(number: u64) -> Hash256 {
    Hash256::from_low_u64_be(number)
}

impl Chain {
    fn new(beta: u64) -> Chain {
        Chain::with_states(beta, true)
    }

    fn with_states(beta: u64, has_states: bool) -> Chain {
        let genesis = root(1);
        let checkpoint = Checkpoint { epoch: Epoch::new(0), root: genesis };
        Chain {
            fcr: FastConfirmation::new(
                FastConfirmationConfig::new(beta).unwrap(),
                SLOTS,
                Provider { has_states },
            ),
            blocks: vec![ProtoBlock {
                slot: Slot::new(0),
                root: genesis,
                parent_root: None,
                unrealized_justified_checkpoint: Some(checkpoint),
            }],
            votes: vec![None; VALIDATORS],
            slot: Slot::new(0),
            head: genesis,
            justified: checkpoint,
            unrealized: checkpoint,
            finalized: checkpoint,
            slot_updates: vec![],
            head_updates: vec![],
        }
    }

    fn epoch(&self) -> Epoch {
        self.slot.epoch(SLOTS)
    }

    fn block(&self, root: Hash256) -> &ProtoBlock {
        self.blocks.iter().find(|block| block.root == root).unwrap()
    }

    fn follows(&self, descendant: Hash256, ancestor: Hash256) -> bool {
        let mut current = Some(descendant);
        while let Some(root) = current {
            if root == ancestor {
                return true;
            }
            current = self.block(root).parent_root;
        }
        false
    }

    fn tree(&self) -> ProtoArrayForkChoice {
        let mut tree = ProtoArrayForkChoice::new();
        for block in &self.blocks {
            let voters = self
                .votes
                .iter()
                .flatten()
                .filter(|vote| self.follows(vote.root, block.root))
                .count();
            let support = voters as u64 * BALANCE;
            assert!(tree.insert_block(ProtoNode {
                block: *block,
                weights: BlockWeights {
                    support: Some(support),
                    boosted: Some(support),
                    proposer_score: Some(0),
                },
            }));
        }
        tree.set_latest_messages(self.votes.clone());
        tree
    }

    fn store(&self) -> ForkChoiceStore {
        ForkChoiceStore {
            current_slot: self.slot,
            justified_checkpoint: self.justified,
            unrealized_justified_checkpoint: self.unrealized,
            finalized_checkpoint: self.finalized,
            justified_balances: JustifiedBalances {
                effective_balances: vec![BALANCE; VALIDATORS],
                total_effective_balance: VALIDATORS as u64 * BALANCE,
            },
        }
    }

    fn next_slot(&mut self) {
        self.slot = self.slot.saturating_add(1);
        if self.slot.is_epoch_start(SLOTS) {
            if self.unrealized != self.justified {
                self.finalized = self.justified;
                self.justified = self.unrealized;
            }
        }
        let (tree, store) = (self.tree(), self.store());
        let update = self.fcr.on_new_slot(&tree, &store, self.head).unwrap();
        self.slot_updates.push(update);
    }

    fn find_head(&mut self) {
        let (tree, store) = (self.tree(), self.store());
        let update = self.fcr.update_after_find_head(self.head, &tree, &store);
        self.head_updates.push(update);
    }

    fn add_block_on(&mut self, parent: Hash256) -> Hash256 {
        let new_root = root(self.blocks.len() as u64 + 1);
        self.blocks.push(ProtoBlock {
            slot: self.slot,
            root: new_root,
            parent_root: Some(parent),
            unrealized_justified_checkpoint: Some(self.unrealized),
        });
        new_root
    }

    fn attest(&mut self) {
        let vote = LatestMessage { root: self.head, epoch: self.epoch() };
        for validator in 0..VALIDATORS {
            if validator as u64 % SLOTS == self.slot.as_u64() % SLOTS {
                self.votes[validator] = Some(vote);
            }
        }
        let epoch = self.epoch();
        let in_epoch = self.votes.iter().flatten().filter(|vote| vote.epoch == epoch).count();
        if 3 * in_epoch >= 2 * VALIDATORS && self.unrealized.epoch != epoch {
            let first = self
                .blocks
                .iter()
                .find(|block| block.slot.epoch(SLOTS) == epoch)
                .unwrap();
            self.unrealized = Checkpoint { epoch, root: first.root };
        }
    }

    fn apply_blocks(mut self, count: usize) -> Chain {
        for _ in 0..count {
            self.next_slot();
            self.head = self.add_block_on(self.head);
            self.find_head();
            self.attest();
        }
        self
    }

    fn apply_blocks_without_new_attestations(mut self, count: usize) -> Chain {
        for _ in 0..count {
            self.next_slot();
            self.head = self.add_block_on(self.head);
            self.find_head();
        }
        self
    }

    fn skip_slots(mut self, count: usize) -> Chain {
        for _ in 0..count {
            self.next_slot();
        }
        self
    }

    fn until_finalized(self) -> Chain {
        let mut chain = self;
        while chain.finalized.epoch == Epoch::new(0) {
            chain = chain.apply_blocks(1);
        }
        chain
    }

    fn confirmed(&self) -> Hash256 {
        self.fcr.get_safe_head()
    }

    fn confirmed_epoch(&self) -> Epoch {
        self.block(self.confirmed()).slot.epoch(SLOTS)
    }
}

fn default_chain() -> Chain {
    Chain::new(DEFAULT_FCR_BYZANTINE_THRESHOLD_PERCENTAGE)
}

#[test]
fn fcr_state_transition_tests() {
    let chain = default_chain().until_finalized().apply_blocks(1);
    assert!(!chain.confirmed().is_zero());
    let chain = chain.apply_blocks(1);
    assert!(!chain.confirmed().is_zero());
    let mut chain = chain.skip_slots(3);
    assert!(!chain.confirmed().is_zero());
    chain.attest();
    chain.find_head();
    let result1 = chain.confirmed();
    let result2 = chain.confirmed();
    assert_eq!(result1, result2);
    assert!(!result1.is_zero());
}

#[test]
fn fcr_confirmation_inheritance_tests() {
    let chain = default_chain().until_finalized().apply_blocks(3);
    assert!(!chain.head.is_zero(), "Should have a valid head");
    let initial_confirmed_root = chain.confirmed();
    assert!(
        chain.tree().get_block(&initial_confirmed_root).is_some(),
        "Confirmed block should exist in fork choice"
    );
    assert!(chain.fcr.is_block_confirmed(&initial_confirmed_root));
    assert_eq!(initial_confirmed_root, chain.confirmed(), "Confirmation should persist");
    assert!(chain.fcr.is_ancestor(&chain.tree(), chain.head, initial_confirmed_root));
    let chain = chain.apply_blocks(1);
    assert!(!chain.confirmed().is_zero(), "Should have confirmed root after new block");
    assert!(chain.fcr.is_block_confirmed(&initial_confirmed_root));
}

#[test]
fn fcr_mark_confirmed_tests() {
    let chain = default_chain().until_finalized().apply_blocks(5);
    assert!(!chain.head.is_zero(), "Should have a valid head");
    let chain = chain.apply_blocks(1);
    assert!(!chain.confirmed().is_zero(), "Confirmed root should not be zero");
    let mut chain = chain.apply_blocks(2).skip_slots(3);
    chain.attest();
    chain.find_head();
    let confirmed_head = chain.confirmed();
    assert!(
        chain.tree().is_descendant(confirmed_head, chain.head) || confirmed_head == chain.head,
        "Confirmed head should be a descendant or equal to chain head"
    );
}

#[test]
fn fcr_get_ffg_weight_till_slot_tests() {
    for beta in [DEFAULT_FCR_BYZANTINE_THRESHOLD_PERCENTAGE, 30] {
        let chain = Chain::new(beta).until_finalized().apply_blocks(5);
        let confirmed_root = chain.confirmed();
        assert_ne!(confirmed_root, Hash256::zero(), "Confirmed head should not be zero");
        assert!(
            chain.tree().is_descendant(chain.finalized.root, confirmed_root),
            "Confirmed head should be descendant of finalized checkpoint"
        );
        assert_eq!(chain.confirmed(), confirmed_root, "FCR confirmation should be consistent");
        assert_eq!(chain.fcr.beta_percentage(), beta);
    }
}

#[test]
fn fcr_will_current_epoch_checkpoint_be_justified_tests() {
    for beta in [DEFAULT_FCR_BYZANTINE_THRESHOLD_PERCENTAGE, 30] {
        let chain = Chain::new(beta).until_finalized().apply_blocks(5);
        assert!(
            chain.tree().is_descendant(chain.finalized.root, chain.confirmed()),
            "FCR confirmation should always be safe"
        );
        let (tree, store) = (chain.tree(), chain.store());
        let current = Checkpoint { epoch: chain.epoch(), root: chain.head };
        assert_eq!(
            chain.fcr.will_current_epoch_checkpoint_be_justified(&tree, &store, &current),
            chain.fcr.will_checkpoint_be_justified(&tree, &store, &current)
        );
        let past = Checkpoint { epoch: Epoch::new(0), root: root(2) };
        assert_eq!(
            chain.fcr.will_current_epoch_checkpoint_be_justified(&tree, &store, &past),
            Err(Error::CheckpointNotInCurrentEpoch)
        );
        assert_eq!(chain.fcr.will_checkpoint_be_justified(&tree, &store, &past), Ok(false));
        assert_eq!(
            chain.fcr.will_checkpoint_be_justified(&tree, &store, &store.justified_checkpoint),
            Ok(true)
        );
    }
}

#[test]
fn fcr_pruning_behavior_tests() {
    let mut chain = default_chain().until_finalized().apply_blocks(5);
    let finalized_root = chain.finalized.root;
    assert!(!finalized_root.is_zero(), "Should have finalized checkpoint");
    let tree = chain.tree();
    let finalized_block = tree.get_block(&finalized_root);
    assert!(finalized_block.is_some(), "Finalized block should exist");
    let boundary = finalized_block.unwrap().slot;
    let before = chain.fcr.metadata_cache_size();
    let confirmed = chain.confirmed();
    assert_eq!(chain.fcr.prune(finalized_root, &tree), Ok(()));
    let after = chain.fcr.metadata_cache_size();
    assert!(after < before);
    for block in &chain.blocks {
        if block.slot < boundary {
            assert!(chain.fcr.get_meta(&block.root).is_none());
        }
    }
    assert!(chain.fcr.is_block_confirmed(&confirmed));
    assert_eq!(chain.fcr.prune(finalized_root, &tree), Ok(()));
    assert_eq!(chain.fcr.metadata_cache_size(), after);
    assert_eq!(
        chain.fcr.prune(root(999_999), &tree),
        Err(Error::FinalizedBlockNotFound)
    );
    assert_eq!(chain.fcr.metadata_cache_size(), after);

    let minimal = default_chain();
    assert!(!minimal.finalized.root.is_zero(), "Should have genesis finalized checkpoint");
}

#[test]
fn fcr_confirmation_state_transitions() {
    let mut chain = default_chain().until_finalized().apply_blocks(2);
    assert!(!chain.confirmed().is_zero(), "Should have confirmed root after blocks");
    chain.attest();
    assert!(!chain.confirmed().is_zero(), "Should have confirmed root after attestation");
    let chain = chain.skip_slots(2);
    assert!(!chain.confirmed().is_zero(), "Should have confirmed root after slot advancement");
}

#[test]
fn fcr_ffg_confirmation_across_epoch_boundary() {
    let no_attn = default_chain()
        .apply_blocks(SLOTS as usize - 1)
        .apply_blocks_without_new_attestations(3);
    assert!(
        no_attn.confirmed_epoch() <= no_attn.epoch().saturating_sub(1),
        "FFG should conservatively avoid confirming into current epoch without attestations"
    );
    let with_attn = default_chain().apply_blocks(SLOTS as usize).apply_blocks(3);
    assert!(
        with_attn.confirmed_epoch() >= with_attn.epoch().saturating_sub(1),
        "FFG should allow confirmation to reach boundary/current epoch when attestations exist"
    );
}

#[test]
fn fcr_ffg_weight_progression_sanity() {
    let chain = default_chain().apply_blocks(SLOTS as usize / 2).apply_blocks(2);
    let c1 = chain.confirmed();
    let chain = chain.apply_blocks(3);
    let c2 = chain.confirmed();
    assert!(!c1.is_zero() && !c2.is_zero());
    let monotonic = c1 == c2 || chain.tree().is_descendant(c1, c2);
    assert!(
        monotonic,
        "Confirmed head should be stable or advance with continued attestations"
    );
}

#[test]
fn fcr_ffg_beta_sensitivity() {
    let low = Chain::new(10).apply_blocks(SLOTS as usize).apply_blocks(2);
    assert!(
        low.confirmed_epoch() >= low.epoch().saturating_sub(1),
        "Low beta should allow confirmation closer to current epoch"
    );
    let high = Chain::new(49).apply_blocks(SLOTS as usize).apply_blocks(2);
    assert!(
        high.confirmed_epoch() <= high.epoch().saturating_sub(1),
        "High beta should keep confirmations conservative"
    );
    assert!(high.block(high.confirmed()).slot <= low.block(low.confirmed()).slot);
}

#[test]
fn fcr_ffg_boundary_slot_conservative_then_progress() {
    let chain = default_chain()
        .apply_blocks(SLOTS as usize - 1)
        .apply_blocks_without_new_attestations(1);
    assert!(
        chain.confirmed_epoch() <= chain.epoch().saturating_sub(1),
        "At the boundary without attestations, confirmation should remain in previous epoch"
    );
    let chain = chain.apply_blocks(2);
    assert!(
        chain.confirmed_epoch() >= chain.epoch().saturating_sub(1),
        "With attestations in the new epoch, confirmation should approach/enter current epoch"
    );
}

#[test]
fn fcr_is_ancestor_tests() {
    let chain = default_chain().apply_blocks(6);
    let tree = chain.tree();
    let head_root = chain.head;
    assert!(
        chain.fcr.is_ancestor(&tree, head_root, head_root),
        "Block should be ancestor of itself"
    );
    let parent_root = tree.get_block(&head_root).unwrap().parent_root.unwrap();
    assert!(chain.fcr.is_ancestor(&tree, head_root, parent_root));
    assert!(!chain.fcr.is_ancestor(&tree, parent_root, head_root));
    let grandparent = tree.get_block(&parent_root).unwrap().parent_root.unwrap();
    assert!(chain.fcr.is_ancestor(&tree, head_root, grandparent));
    assert!(!chain.fcr.is_ancestor(&tree, grandparent, head_root));
    let fake_root = Hash256::from_low_u64_be(999999);
    assert!(!chain.fcr.is_ancestor(&tree, fake_root, head_root));
    assert!(!chain.fcr.is_ancestor(&tree, head_root, fake_root));
    let genesis_root = root(1);
    assert!(chain.fcr.is_ancestor(&tree, head_root, genesis_root));
    assert!(!chain.fcr.is_ancestor(&tree, genesis_root, head_root));

    let chain = chain.apply_blocks(3);
    let tree = chain.tree();
    assert!(
        chain.fcr.is_ancestor(&tree, chain.head, head_root),
        "Old head should be ancestor of new head"
    );
    let mut chain_blocks = vec![chain.head];
    let mut current_root = chain.head;
    while let Some(parent) = tree.get_block(&current_root).unwrap().parent_root {
        chain_blocks.push(parent);
        current_root = parent;
    }
    for (i, ancestor) in chain_blocks.iter().enumerate() {
        for descendant in chain_blocks.iter().take(i) {
            assert!(chain.fcr.is_ancestor(&tree, *descendant, *ancestor));
        }
    }
}

#[test]
fn siblings_are_no_ancestors() {
    let mut chain = default_chain().apply_blocks(3);
    let parent = chain.head;
    chain.slot = chain.slot.saturating_add(1);
    let left = chain.add_block_on(parent);
    let right = chain.add_block_on(parent);
    let tree = chain.tree();
    assert!(!chain.fcr.is_ancestor(&tree, left, right));
    assert!(!chain.fcr.is_ancestor(&tree, right, left));
    assert!(chain.fcr.is_ancestor(&tree, left, parent));
    assert!(chain.fcr.is_ancestor(&tree, right, parent));
}

#[test]
fn honest_votes_confirm_within_a_slot() {
    let chain = default_chain().until_finalized().apply_blocks(4);
    let parent = chain.block(chain.head).parent_root.unwrap();
    assert_eq!(chain.confirmed(), parent);
    let update = chain.slot_updates.last().unwrap();
    assert_eq!(update.latest.root, parent);
    assert_eq!(update.latest.restart, None);
    assert_eq!(update.latest.rollback_slots, None);
    let record = update.confirmation.unwrap();
    assert_eq!(record.delay.unwrap().slots, 1);
    assert_eq!(record.delay.unwrap().bucket, DelayBucket::One);
    assert_eq!(record.delay.unwrap().tail_case, None);
    assert_eq!(record.head_gap_slots, Some(0));
}

#[test]
fn safe_head_follows_the_confirmed_block() {
    let mut chain = default_chain();
    for _ in 0..30 {
        chain = chain.apply_blocks(1);
        assert_eq!(chain.fcr.get_safe_head(), chain.fcr.confirmed_root());
        let metrics = chain.fcr.get_safe_head_metrics(&chain.tree());
        assert_eq!(metrics.safe_head_root, chain.confirmed());
        assert_eq!(metrics.confirmed_root, chain.fcr.confirmed_root());
        assert_eq!(metrics.safe_head_slot, chain.block(chain.confirmed()).slot.as_u64());
        assert!(chain.tree().is_descendant(chain.fcr.confirmed_root(), chain.head));
    }
}

#[test]
fn confirmations_last() {
    let mut chain = default_chain();
    let mut confirmed = vec![];
    for _ in 0..30 {
        chain = chain.apply_blocks(1);
        for earlier in &confirmed {
            assert!(chain.fcr.is_block_confirmed(earlier));
        }
        confirmed.push(chain.confirmed());
    }
}

#[test]
fn slots_are_remembered() {
    let chain = default_chain().apply_blocks(3);
    let head = chain.head;
    let (justified, unrealized) = (chain.justified, chain.unrealized);
    let chain = chain.skip_slots(1);
    assert_eq!(chain.fcr.prev_slot_head(), head);
    assert_eq!(chain.fcr.prev_slot_justified_checkpoint(), justified);
    assert_eq!(chain.fcr.prev_slot_unrealized_justified_checkpoint(), unrealized);
}

#[test]
fn head_comes_from_the_parameters() {
    let mut by_params = default_chain().apply_blocks(3);
    let mut by_head = default_chain().apply_blocks(3);
    let (tree, mut store) = (by_head.tree(), by_head.store());
    store.current_slot = Slot::new(4);
    let params = ForkchoiceUpdateParameters { head_root: by_params.head };
    let a = by_params.fcr.on_new_slot_with_params(&tree, &store, &params).unwrap();
    let b = by_head.fcr.update_per_slot(&tree, &store, by_head.head).unwrap();
    assert_eq!(a, b);
    assert_eq!(by_params.fcr.confirmed_root(), by_head.fcr.confirmed_root());
    assert_eq!(by_params.fcr.prev_slot_head(), by_head.fcr.prev_slot_head());
}

#[test]
fn epoch_boundaries_are_reported() {
    let chain = default_chain().apply_blocks(17);
    for (i, update) in chain.slot_updates.iter().enumerate() {
        assert_eq!(update.epoch_boundary, (i + 1) % SLOTS as usize == 0);
    }
}

#[test]
fn without_states_the_rule_stays_behind() {
    let with_states = default_chain().apply_blocks(30);
    let without = Chain::with_states(DEFAULT_FCR_BYZANTINE_THRESHOLD_PERCENTAGE, false).apply_blocks(30);
    assert!(without.block(without.confirmed()).slot <= with_states.block(with_states.confirmed()).slot);
    let (tree, store) = (without.tree(), without.store());
    assert_eq!(
        without.fcr.will_no_conflicting_checkpoint_be_justified(&tree, &store, without.head),
        Ok(false)
    );
    let checkpoint = Checkpoint { epoch: without.epoch(), root: without.head };
    assert_eq!(
        without.fcr.will_checkpoint_be_justified(&tree, &store, &checkpoint),
        Ok(false)
    );
}

#[test]
fn reorganisation_restarts_from_the_finalized_block() {
    let mut chain = default_chain().until_finalized().apply_blocks(4);
    let confirmed = chain.confirmed();
    let confirmed_slot = chain.block(confirmed).slot.as_u64();
    let finalized = chain.finalized.root;
    let finalized_slot = chain.block(finalized).slot.as_u64();
    chain.slot = chain.slot.saturating_add(1);
    chain.head = chain.add_block_on(finalized);
    let (tree, store) = (chain.tree(), chain.store());
    let latest = chain.fcr.assess_latest_confirmed(&tree, &store, chain.head);
    assert_eq!(
        latest.restart,
        Some(fork_choice::metrics::Restart::Reorg(Some(confirmed_slot - finalized_slot)))
    );
    assert_eq!(latest.root, finalized);
    assert_eq!(latest.rollback_slots, Some(confirmed_slot - finalized_slot));
    assert_eq!(
        chain.fcr.get_latest_confirmed(&tree, &store, chain.head),
        Some(finalized)
    );
}

#[test]
fn new_head_off_the_safe_head_is_searched() {
    let mut chain = default_chain().until_finalized().apply_blocks(4);
    let safe_head = chain.confirmed();
    let fork_point = chain.block(safe_head).parent_root.unwrap();
    assert!(chain.fcr.is_block_confirmed(&fork_point));
    chain.slot = chain.slot.saturating_add(1);
    chain.head = chain.add_block_on(fork_point);
    chain.find_head();
    let update = chain.head_updates.last().unwrap().unwrap();
    assert_eq!(update.confirmed_ancestor, Some(fork_point));
    assert_eq!(update.confirmation, None);
    assert_eq!(update.reorg_distance, Some(1));
    assert_eq!(chain.fcr.get_safe_head(), fork_point);
    assert_eq!(chain.fcr.confirmed_root(), safe_head);
    assert!(chain.fcr.get_meta(&chain.head).is_some());
}

#[test]
fn slot_reports_a_reorganised_safe_head() {
    let mut chain = default_chain().until_finalized().apply_blocks(4);
    let safe_head = chain.confirmed();
    let finalized = chain.finalized.root;
    let mut given_up = 0;
    let mut current = safe_head;
    while current != finalized {
        given_up += 1;
        current = chain.block(current).parent_root.unwrap();
    }
    chain.slot = chain.slot.saturating_add(1);
    chain.head = chain.add_block_on(finalized);
    let (tree, store) = (chain.tree(), chain.store());
    let update = chain.fcr.on_new_slot(&tree, &store, chain.head).unwrap();
    assert_eq!(chain.confirmed(), finalized);
    assert_eq!(update.reorg_distance, Some(given_up));
}

#[test]
fn advancing_safe_heads_are_no_reorganisations() {
    let chain = default_chain().apply_blocks(30);
    for update in &chain.slot_updates {
        assert_eq!(update.reorg_distance, None);
    }
    for update in &chain.head_updates {
        assert_eq!(update.unwrap().reorg_distance, None);
    }
}

#[test]
fn rollbacks_to_the_first_slot_are_reported() {
    let chain = default_chain().apply_blocks(5).skip_slots(1);
    let confirmed_slot = chain.block(chain.confirmed()).slot.as_u64();
    let chain = chain.skip_slots(2 * SLOTS as usize);
    assert_eq!(chain.confirmed(), root(1));
    assert_eq!(chain.block(root(1)).slot, Slot::new(0));
    let rollbacks: Vec<u64> =
        chain.slot_updates.iter().filter_map(|update| update.latest.rollback_slots).collect();
    assert_eq!(rollbacks, vec![confirmed_slot]);
}

#[test]
fn missing_confirmed_block_restarts() {
    let chain = default_chain().apply_blocks(1);
    let update = chain.slot_updates[0];
    assert_eq!(update.latest.restart, Some(fork_choice::metrics::Restart::Stale));
    assert_eq!(update.latest.root, root(1));
    assert_eq!(chain.fcr.confirmed_root(), root(1));
    assert!(chain.fcr.is_block_confirmed(&root(1)));
}

#[test]
fn old_confirmed_block_restarts() {
    let chain = default_chain().apply_blocks(5);
    let confirmed = chain.confirmed();
    assert_ne!(confirmed, root(1));
    let chain = chain.skip_slots(2 * SLOTS as usize);
    assert_eq!(chain.confirmed(), root(1));
    assert!(chain
        .slot_updates
        .iter()
        .skip(5)
        .any(|update| update.latest.restart == Some(fork_choice::metrics::Restart::Stale)));
}
