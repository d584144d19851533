use fork_choice::bench_api::{fcr, DummyProvider};
use fork_choice::metrics::{
    confirmation_record, scrape_for_metrics, ConfirmedHead, DelayBucket, HeadUpdate, Restart,
    TailBucket, TailCase,
};
use fork_choice::proto_array::{BlockWeights, ProtoNode};
use fork_choice::rule::VoteTally;
use fork_choice::state_provider::CheckpointValidator;
use fork_choice::votes::{
    get_canonical_roots, get_checkpoint_block, get_checkpoint_weight, get_voting_source_epoch,
};
use fork_choice::{
    Checkpoint, CheckpointState, Epoch, Error, FastConfirmation, FastConfirmationConfig, FcrMeta,
    FcrStore, ForkChoiceStore, Hash256, JustifiedBalances, LatestMessage, ProtoArrayForkChoice,
    ProtoBlock, Slot, StateProvider,
};

const TOTAL: u64 = 3_200;

fn root(number: u64) -> Hash256 {
    Hash256::from_low_u64_be(number)
}

fn node(number: u64, slot: u64, parent: Option<u64>, support: u64) -> ProtoNode {
    ProtoNode {
        block: ProtoBlock {
            slot: Slot::new(slot),
            root: root(number),
            parent_root: parent.map(root),
            unrealized_justified_checkpoint: None,
        },
        weights: BlockWeights {
            support: Some(support),
            boosted: Some(support),
            proposer_score: None,
        },
    }
}

fn tree(nodes: &[ProtoNode]) -> ProtoArrayForkChoice {
    let mut tree = ProtoArrayForkChoice::new();
    for node in nodes {
        assert!(tree.insert_block(*node));
    }
    tree
}

fn store(slot: u64) -> ForkChoiceStore {
    ForkChoiceStore {
        current_slot: Slot::new(slot),
        justified_checkpoint: Checkpoint::default(),
        unrealized_justified_checkpoint: Checkpoint::default(),
        finalized_checkpoint: Checkpoint::default(),
        justified_balances: JustifiedBalances {
            effective_balances: vec![],
            total_effective_balance: TOTAL,
        },
    }
}

fn checkpoint(epoch: u64, number: u64) -> Checkpoint {
    Checkpoint { epoch: Epoch::new(epoch), root: root(number) }
}

fn validators(balances: &[u64]) -> Vec<CheckpointValidator> {
    balances
        .iter()
        .map(|&effective_balance| CheckpointValidator { effective_balance, slashed: false })
        .collect()
}

fn state(total: Option<u64>, balances: &[u64]) -> Option<CheckpointState> {
    Some(CheckpointState { total_active_balance: total, validators: validators(balances) })
}

/// A provider with one and the same state for every checkpoint.
struct OneState(Option<CheckpointState>);

impl StateProvider for OneState {
    type Error = ();

    fn get_checkpoint_state(&self, _: &Checkpoint) -> Result<Option<CheckpointState>, ()> {
        Ok(self.0.clone())
    }

    fn get_total_active_balance_at_epoch(&self, _: Epoch) -> Result<u64, ()> {
        Err(())
    }
}

fn with_provider(provider: OneState) -> FastConfirmation<OneState> {
    FastConfirmation::new(FastConfirmationConfig::new(25).unwrap(), 32, provider)
}

#[test]
fn fresh_instance() {
    let fcr = fcr();
    let blank = FcrStore::default();
    assert_eq!(fcr.confirmed_root(), blank.confirmed_root);
    assert!(fcr.get_safe_head().is_zero());
    assert!(fcr.prev_slot_head().is_zero());
    assert_eq!(fcr.prev_slot_justified_checkpoint(), Checkpoint::default());
    assert_eq!(fcr.prev_slot_unrealized_justified_checkpoint(), Checkpoint::default());
    assert_eq!(fcr.metadata_cache_size(), 0);
    assert_eq!(fcr.beta_percentage(), 33);
    assert!(!fcr.is_block_confirmed(&root(1)));
}

#[test]
fn check_of_missing_blocks() {
    let fcr = fcr();
    let blocks = tree(&[node(2, 5, Some(1), 100)]);
    assert_eq!(
        fcr.is_one_confirmed(root(7), &blocks, &store(9)),
        Err(Error::BlockNotFound(root(7)))
    );
    assert_eq!(
        fcr.is_one_confirmed(root(2), &blocks, &store(9)),
        Err(Error::ParentNotFound(root(1)))
    );
}

#[test]
fn check_of_missing_weights() {
    let mut child = node(2, 5, Some(1), 0);
    child.weights.support = None;
    let blocks = tree(&[node(1, 4, None, 0), child]);
    assert_eq!(
        fcr().is_one_confirmed(root(2), &blocks, &store(9)),
        Err(Error::WeightNotFound(root(2)))
    );
}

#[test]
fn first_block_is_not_confirmed() {
    let blocks = tree(&[node(1, 4, None, u64::MAX)]);
    assert_eq!(fcr().is_one_confirmed(root(1), &blocks, &store(9)), Ok(false));
}

#[test]
fn no_confirmation_before_votes() {
    let blocks = tree(&[node(1, 4, None, 3_200), node(2, 5, Some(1), 3_200)]);
    assert_eq!(fcr().is_one_confirmed(root(2), &blocks, &store(5)), Ok(false));
    assert_eq!(fcr().is_one_confirmed(root(2), &blocks, &store(6)), Ok(true));
}

#[test]
fn skipped_slots_count_as_votes_missed() {
    let blocks = tree(&[node(1, 1, None, 400), node(2, 5, Some(1), 400)]);
    assert_eq!(fcr().is_one_confirmed(root(2), &blocks, &store(5)), Ok(true));
    let blocks = tree(&[node(1, 1, None, 200), node(2, 5, Some(1), 200)]);
    assert_eq!(fcr().is_one_confirmed(root(2), &blocks, &store(5)), Ok(false));
}

#[test]
fn threshold_of_support() {
    let fcr = with_provider(OneState(None));
    let confirmed = |support| {
        let blocks = tree(&[node(1, 4, None, 0), node(2, 5, Some(1), support)]);
        fcr.is_one_confirmed(root(2), &blocks, &store(7)).unwrap()
    };
    assert!(!confirmed(150));
    assert!(confirmed(151));
}

#[test]
fn weights_come_from_the_checkpoint_state() {
    let blocks = tree(&[node(1, 4, None, 0), node(2, 5, Some(1), 151)]);
    let fcr = with_provider(OneState(None));
    let check = |state| fcr.check_one_confirmed(root(2), &blocks, &store(7), &state);
    assert_eq!(check(None), Ok(true));
    assert_eq!(check(state(None, &[])), Ok(true));
    assert_eq!(check(state(Some(TOTAL), &[])), Ok(true));
    assert_eq!(check(state(Some(2 * TOTAL), &[])), Ok(false));
    let doubled = with_provider(OneState(state(Some(2 * TOTAL), &[])));
    assert_eq!(doubled.is_one_confirmed(root(2), &blocks, &store(7)), Ok(false));
}

#[test]
fn proposer_boost_raises_the_threshold() {
    let fcr = with_provider(OneState(None));
    let confirmed = |boosted, proposer_score| {
        let mut child = node(2, 5, Some(1), 151);
        child.weights = BlockWeights { support: Some(151), boosted, proposer_score };
        let blocks = tree(&[node(1, 4, None, 0), child]);
        fcr.is_one_confirmed(root(2), &blocks, &store(7)).unwrap()
    };
    assert!(confirmed(None, None));
    assert!(confirmed(Some(151), Some(1)));
    assert!(!confirmed(Some(151), Some(2)));
    assert!(!confirmed(None, Some(2)));
    assert!(confirmed(Some(152), Some(1_000)));
    assert!(!confirmed(Some(153), None));
    assert!(confirmed(Some(100), None));
}

#[test]
fn votes_across_an_epoch_boundary() {
    let fcr = with_provider(OneState(None));
    let confirmed = |support| {
        let blocks = tree(&[node(1, 30, None, 0), node(2, 31, Some(1), support)]);
        fcr.is_one_confirmed(root(2), &blocks, &store(33)).unwrap()
    };
    let committee = (100 + 3 * 31) * 1005 / 1000;
    assert_eq!(committee, 193);
    assert!(!confirmed(144));
    assert!(confirmed(145));
}

#[test]
fn walk_between_blocks() {
    let blocks = tree(&[
        node(1, 1, None, 0),
        node(2, 2, Some(1), 0),
        node(3, 3, Some(2), 0),
        node(4, 3, Some(1), 0),
    ]);
    assert_eq!(
        get_canonical_roots(&blocks, root(1), root(3)),
        Some(vec![root(1), root(2), root(3)])
    );
    assert_eq!(get_canonical_roots(&blocks, root(3), root(3)), Some(vec![root(3)]));
    assert_eq!(get_canonical_roots(&blocks, root(2), root(4)), None);
    assert_eq!(get_canonical_roots(&blocks, root(3), root(1)), None);
    assert_eq!(get_canonical_roots(&blocks, root(9), root(3)), None);
    assert_eq!(get_canonical_roots(&blocks, root(9), root(9)), Some(vec![root(9)]));
}

#[test]
fn trees_refuse_blocks_out_of_order() {
    let mut blocks = tree(&[node(1, 5, None, 0), node(2, 6, Some(1), 0)]);
    assert!(!blocks.insert_block(node(1, 9, None, 0)));
    assert!(!blocks.insert_block(node(3, 6, Some(2), 0)));
    assert!(!blocks.insert_block(node(3, 7, Some(3), 0)));
    assert!(blocks.insert_block(node(5, 9, Some(4), 0)));
    assert!(!blocks.insert_block(node(4, 9, Some(2), 0)));
    assert!(blocks.insert_block(node(4, 8, Some(2), 0)));
    assert_eq!(blocks.len(), 4);
    assert!(blocks.is_descendant(root(1), root(5)));
}

#[test]
fn checkpoint_blocks() {
    let blocks = tree(&[
        node(1, 10, None, 0),
        node(2, 33, Some(1), 0),
        node(3, 40, Some(2), 0),
        node(4, 96, Some(3), 0),
    ]);
    let block_of = |from, epoch| get_checkpoint_block(&blocks, 32, root(from), Epoch::new(epoch));
    assert_eq!(block_of(4, 3), Some(root(4)));
    assert_eq!(block_of(4, 2), None);
    assert_eq!(block_of(4, 1), Some(root(3)));
    assert_eq!(block_of(2, 1), Some(root(2)));
    assert_eq!(block_of(4, 0), Some(root(1)));
    assert_eq!(block_of(9, 0), None);
}

fn vote(number: u64, epoch: u64) -> Option<LatestMessage> {
    Some(LatestMessage { root: root(number), epoch: Epoch::new(epoch) })
}

#[test]
fn fcr_get_checkpoint_weight_tests() {
    let mut blocks = tree(&[
        node(1, 10, None, 0),
        node(2, 33, Some(1), 0),
        node(3, 40, Some(2), 0),
        node(4, 41, Some(1), 0),
    ]);
    blocks.set_latest_messages(vec![
        vote(3, 1),
        vote(3, 1),
        vote(2, 1),
        vote(4, 1),
        vote(3, 0),
        None,
        vote(9, 1),
    ]);
    let weight = |checkpoint, balances: &[u64]| {
        get_checkpoint_weight(&blocks, &checkpoint, &validators(balances))
    };
    let balances = [1, 2, 4, 8, 16, 32, 64];
    assert_eq!(weight(checkpoint(1, 3), &balances), 3);
    assert_eq!(weight(checkpoint(1, 2), &balances), 7);
    assert_eq!(weight(checkpoint(1, 1), &balances), 15);
    assert_eq!(weight(checkpoint(1, 4), &balances), 8);
    assert_eq!(weight(checkpoint(0, 1), &balances), 16);
    assert_eq!(weight(checkpoint(5, 3), &balances), 0);
    assert_eq!(weight(checkpoint(1, 9), &balances), 0);
    assert_eq!(weight(checkpoint(1, 3), &[]), 0);
    assert_eq!(weight(checkpoint(1, 3), &[1]), 1);
    assert_eq!(weight(checkpoint(1, 3), &[u64::MAX, 2]), u64::MAX);

    let mut some_slashed = validators(&balances);
    some_slashed[0].slashed = true;
    assert_eq!(get_checkpoint_weight(&blocks, &checkpoint(1, 2), &some_slashed), 6);
    for validator in &mut some_slashed {
        validator.slashed = true;
    }
    assert_eq!(get_checkpoint_weight(&blocks, &checkpoint(1, 2), &some_slashed), 0);
}

#[test]
fn voting_sources() {
    let mut blocks = tree(&[node(1, 1, None, 0), node(2, 2, Some(1), 0), node(3, 2, Some(1), 0)]);
    blocks.set_latest_messages(vec![vote(2, 4), vote(2, 5), vote(2, 5), vote(3, 6), vote(3, 7)]);
    let source = |head, balances: &[u64]| {
        get_voting_source_epoch(&blocks, &balances.to_vec(), root(head), Epoch::new(99))
    };
    assert_eq!(source(2, &[3, 1, 1, 9, 9]), Epoch::new(4));
    assert_eq!(source(2, &[3, 2, 2, 9, 9]), Epoch::new(5));
    assert_eq!(source(1, &[3, 2, 2, 9, 8]), Epoch::new(6));
    assert_eq!(source(3, &[0, 0, 0, 1, 2]), Epoch::new(7));
    assert_eq!(source(2, &[0, 0, 0, 9, 9]), Epoch::new(99));
    assert_eq!(source(9, &[3, 2, 2, 9, 9]), Epoch::new(99));
    assert_eq!(source(2, &[]), Epoch::new(99));
}

#[test]
fn shares_of_the_stake() {
    let fcr = with_provider(OneState(None));
    let mut blocks = tree(&[node(1, 32, None, 0)]);
    blocks.set_latest_messages(vec![vote(1, 1), vote(1, 1), None, None]);
    let target = checkpoint(1, 1);
    let share = |slot, state: &Option<CheckpointState>, share| {
        fcr.check_honest_share(&blocks, &store(slot), &target, state, share)
    };
    assert_eq!(share(40, &None, 2), Ok(false));
    assert_eq!(
        share(40, &state(None, &[1_600, 1_600]), 2),
        Err(Error::TotalActiveBalanceUnavailable)
    );
    let all = state(Some(3_200), &[1_600, 1_600]);
    assert_eq!(share(32, &all, 2), Ok(true));
    assert_eq!(share(63, &all, 2), Ok(true));
    let half = state(Some(3_200), &[800, 800]);
    assert_eq!(share(63, &half, 2), Ok(false));
    assert_eq!(share(63, &half, 1), Ok(false));
    assert_eq!(share(48, &half, 2), Ok(true));
    let none = state(Some(3_200), &[]);
    assert_eq!(share(32, &none, 2), Ok(true));
    assert_eq!(share(40, &none, 2), Ok(false));
    assert_eq!(share(40, &none, 1), Ok(true));
    assert_eq!(share(60, &none, 1), Ok(false));
}

#[test]
fn justification_of_checkpoints() {
    let fcr = with_provider(OneState(state(Some(3_200), &[3_200])));
    let mut blocks = tree(&[node(1, 40, None, 0)]);
    blocks.set_latest_messages(vec![vote(1, 1)]);
    let mut now = store(60);
    assert_eq!(fcr.will_checkpoint_be_justified(&blocks, &now, &checkpoint(1, 1)), Ok(true));
    assert_eq!(fcr.will_checkpoint_be_justified(&blocks, &now, &checkpoint(1, 2)), Ok(false));
    assert_eq!(fcr.will_checkpoint_be_justified(&blocks, &now, &checkpoint(0, 1)), Ok(false));
    assert_eq!(
        fcr.will_current_epoch_checkpoint_be_justified(&blocks, &now, &checkpoint(0, 1)),
        Err(Error::CheckpointNotInCurrentEpoch)
    );
    now.justified_checkpoint = checkpoint(0, 1);
    assert_eq!(fcr.will_checkpoint_be_justified(&blocks, &now, &checkpoint(0, 1)), Ok(true));
    now.unrealized_justified_checkpoint = checkpoint(0, 2);
    assert_eq!(fcr.will_checkpoint_be_justified(&blocks, &now, &checkpoint(0, 2)), Ok(true));
    assert_eq!(
        fcr.will_no_conflicting_checkpoint_be_justified(&blocks, &now, root(1)),
        Ok(true)
    );
    let blind = with_provider(OneState(state(None, &[3_200])));
    assert_eq!(
        blind.will_no_conflicting_checkpoint_be_justified(&blocks, &now, root(1)),
        Err(Error::TotalActiveBalanceUnavailable)
    );
    assert_eq!(
        blind.will_checkpoint_be_justified(&blocks, &now, &checkpoint(1, 1)),
        Err(Error::TotalActiveBalanceUnavailable)
    );
}

#[test]
fn tracking_happens_once() {
    let mut fcr = fcr();
    fcr.track_block_creation(root(1), Slot::new(3));
    fcr.track_block_creation(root(1), Slot::new(9));
    assert_eq!(fcr.metadata_cache_size(), 1);
    assert_eq!(
        fcr.get_meta(&root(1)),
        Some(FcrMeta { block_creation_slot: Slot::new(3), ..FcrMeta::default() })
    );
    assert_eq!(fcr.get_meta(&root(2)), None);
}

#[test]
fn marking_a_block_that_was_seen() {
    let mut fcr = fcr();
    let blocks = tree(&[node(1, 3, None, 0)]);
    fcr.track_block_creation(root(1), Slot::new(4));
    let record = fcr.mark_confirmed(root(1), &blocks, Slot::new(6), Slot::new(5));
    assert_eq!(record.delay.unwrap().slots, 2);
    assert_eq!(record.head_gap_slots, Some(2));
    assert_eq!(
        fcr.get_meta(&root(1)),
        Some(FcrMeta {
            confirmed: true,
            block_creation_slot: Slot::new(4),
            confirmation_slot: Some(Slot::new(6)),
            ..FcrMeta::default()
        })
    );
    let record = fcr.mark_confirmed(root(1), &blocks, Slot::new(2), Slot::new(2));
    assert_eq!(record.delay, None);
    assert_eq!(record.head_gap_slots, Some(0));
}

#[test]
fn marking_a_block_that_was_not_seen() {
    let mut fcr = fcr();
    let blocks = tree(&[node(1, 3, None, 0)]);
    let record = fcr.mark_confirmed(root(1), &blocks, Slot::new(6), Slot::new(5));
    assert_eq!(record.delay.unwrap().slots, 0);
    assert_eq!(record.head_gap_slots, Some(2));
    assert_eq!(fcr.get_meta(&root(1)).unwrap().block_creation_slot, Slot::new(3));
    let record = fcr.mark_confirmed(root(2), &blocks, Slot::new(6), Slot::new(5));
    assert_eq!(record.delay.unwrap().slots, 0);
    assert_eq!(record.head_gap_slots, None);
    assert_eq!(fcr.get_meta(&root(2)).unwrap().block_creation_slot, Slot::new(6));
    assert!(fcr.is_block_confirmed(&root(1)) && fcr.is_block_confirmed(&root(2)));
    assert!(!fcr.is_block_confirmed(&root(3)));
}

#[test]
fn descendants_inherit_confirmation() {
    let mut fcr = fcr();
    let blocks = tree(&[
        node(1, 3, None, 0),
        node(2, 4, Some(1), 0),
        node(3, 5, Some(2), 0),
        node(4, 5, Some(1), 0),
        node(5, 6, Some(3), 0),
        node(6, 7, Some(5), 0),
    ]);
    for number in 1..=5 {
        fcr.track_block_creation(root(number), Slot::new(number));
    }
    fcr.mark_confirmed(root(5), &blocks, Slot::new(8), Slot::new(8));
    fcr.mark_confirmed(root(2), &blocks, Slot::new(9), Slot::new(9));
    assert!(!fcr.is_block_confirmed(&root(1)));
    assert!(!fcr.is_block_confirmed(&root(4)));
    assert_eq!(fcr.get_meta(&root(6)), None);
    let confirmed_in = |number| fcr.get_meta(&root(number)).unwrap().confirmation_slot;
    for number in [2, 3, 5] {
        assert!(fcr.is_block_confirmed(&root(number)));
        assert_eq!(
            fcr.get_meta(&root(number)).unwrap().block_creation_slot,
            Slot::new(number)
        );
    }
    assert_eq!(confirmed_in(2), Some(Slot::new(9)));
    assert_eq!(confirmed_in(3), Some(Slot::new(9)));
    assert_eq!(confirmed_in(5), Some(Slot::new(8)));
    assert_eq!(confirmed_in(1), None);
    assert_eq!(confirmed_in(4), None);
}

#[test]
fn tally_of_votes() {
    let fcr = with_provider(OneState(state(Some(2 * TOTAL), &[])));
    let mut child = node(2, 5, Some(1), 151);
    child.weights.boosted = Some(160);
    let blocks = tree(&[node(1, 4, None, 0), child, node(3, 6, Some(9), 0)]);
    let tally = |root, slot, state| fcr.get_vote_tally(root, &blocks, &store(slot), &state);
    assert_eq!(
        tally(root(2), 7, None),
        Ok(Some(VoteTally { support: 151, committee_weight: 200, proposer_score: 9 }))
    );
    assert_eq!(
        tally(root(2), 7, fcr.get_weighting_state()),
        Ok(Some(VoteTally { support: 151, committee_weight: 400, proposer_score: 9 }))
    );
    assert_eq!(tally(root(2), 5, None), Ok(None));
    assert_eq!(tally(root(1), 7, None), Ok(None));
    assert_eq!(tally(root(3), 7, None), Err(Error::ParentNotFound(root(9))));
    assert_eq!(tally(root(8), 7, None), Err(Error::BlockNotFound(root(8))));
}

#[test]
fn safe_head_reorganisations_are_counted_in_blocks() {
    let blocks = tree(&[
        node(1, 1, None, 0),
        node(2, 2, Some(1), 0),
        node(3, 3, Some(2), 0),
        node(4, 4, Some(3), 3_200),
        node(5, 4, Some(2), 0),
    ]);
    let mut fcr = fcr();
    fcr.mark_confirmed(root(2), &blocks, Slot::new(5), Slot::new(5));
    let update = fcr.update_after_find_head(root(4), &blocks, &store(5)).unwrap();
    assert_eq!(update.confirmed_ancestor, Some(root(4)));
    assert_eq!(update.reorg_distance, None);
    let update = fcr.update_after_find_head(root(5), &blocks, &store(5)).unwrap();
    assert_eq!(update.confirmed_ancestor, Some(root(2)));
    assert_eq!(update.reorg_distance, Some(2));
    assert_eq!(fcr.get_safe_head(), root(2));
    let update = fcr.update_after_find_head(root(4), &blocks, &store(5)).unwrap();
    assert_eq!(update.reorg_distance, None);
    assert_eq!(fcr.get_safe_head(), root(2));
}

#[test]
fn confirmed_head_of_the_previous_slot_counts_as_reorganisation() {
    let blocks = tree(&[
        node(1, 1, None, 0),
        node(2, 2, Some(1), 3_200),
        node(3, 2, Some(1), 0),
    ]);
    let mut fcr = fcr();
    fcr.on_new_slot(&blocks, &store(4), root(3)).unwrap();
    fcr.update_after_find_head(root(2), &blocks, &store(4)).unwrap();
    assert_eq!(fcr.get_safe_head(), root(2));
    fcr.mark_confirmed(root(3), &blocks, Slot::new(4), Slot::new(4));
    assert_eq!(fcr.prev_slot_head(), root(3));
    let update = fcr.update_after_find_head(root(3), &blocks, &store(4)).unwrap();
    assert_eq!(fcr.get_safe_head(), root(3));
    assert_eq!(update.reorg_distance, Some(1));
}

#[test]
fn search_confirms_the_latest_block_with_votes() {
    let mut fcr = fcr();
    let blocks = tree(&[
        node(1, 1, None, 3_200),
        node(2, 2, Some(1), 3_200),
        node(3, 3, Some(2), 3_200),
        node(4, 4, Some(3), 0),
    ]);
    let update = fcr.update_after_find_head(root(4), &blocks, &store(5)).unwrap();
    assert_eq!(update.confirmed_ancestor, Some(root(3)));
    assert_eq!(update.confirmation.unwrap().delay.unwrap().slots, 2);
    assert_eq!(update.confirmation.unwrap().head_gap_slots, Some(1));
    assert_eq!(update.reorg_distance, None);
    assert_eq!(fcr.get_safe_head(), root(3));
    assert!(fcr.confirmed_root().is_zero());
    assert_eq!(fcr.metadata_cache_size(), 2);
    let again = fcr.update_after_find_head(root(4), &blocks, &store(5));
    assert_eq!(
        again,
        Ok(HeadUpdate { confirmed_ancestor: None, confirmation: None, reorg_distance: None })
    );
}

#[test]
fn search_stops_at_the_first_block() {
    let mut fcr = fcr();
    let blocks = tree(&[node(1, 1, None, 0), node(2, 2, Some(1), 0), node(3, 3, Some(2), 0)]);
    fcr.on_new_slot(&blocks, &store(3), root(2)).unwrap();
    let update = fcr.update_after_find_head(root(3), &blocks, &store(3)).unwrap();
    assert_eq!(update.confirmed_ancestor, None);
    assert_eq!(update.confirmation, None);
    assert_eq!(update.reorg_distance, None);
    assert!(fcr.get_safe_head().is_zero());
}

#[test]
fn search_fails_on_a_missing_parent() {
    let mut fcr = fcr();
    let blocks = tree(&[node(2, 2, Some(1), 0), node(3, 3, Some(2), 0)]);
    assert_eq!(
        fcr.update_after_find_head(root(3), &blocks, &store(5)),
        Err(Error::ParentNotFound(root(1)))
    );
    assert_eq!(fcr.metadata_cache_size(), 2);
    assert!(fcr.get_safe_head().is_zero());
    assert_eq!(
        fcr.update_after_find_head(root(9), &blocks, &store(5)),
        Err(Error::BlockNotFound(root(9)))
    );
    assert_eq!(fcr.metadata_cache_size(), 2);
}

#[test]
fn search_goes_back_by_a_bounded_number_of_blocks() {
    let mut nodes = vec![node(1, 1, None, 0)];
    for number in 2..=40 {
        nodes.push(node(number, number, Some(number - 1), 0));
    }
    let blocks = tree(&nodes);
    let mut too_far = fcr();
    too_far.mark_confirmed(root(8), &blocks, Slot::new(40), Slot::new(40));
    let update = too_far.update_after_find_head(root(40), &blocks, &store(40)).unwrap();
    assert_eq!(update.confirmed_ancestor, None);
    assert_eq!(too_far.metadata_cache_size(), 1 + 32);
    let mut in_reach = fcr();
    in_reach.mark_confirmed(root(9), &blocks, Slot::new(40), Slot::new(40));
    let update = in_reach.update_after_find_head(root(40), &blocks, &store(40)).unwrap();
    assert_eq!(update.confirmed_ancestor, Some(root(9)));
    assert_eq!(in_reach.metadata_cache_size(), 32);
}

#[test]
fn pruning_drops_old_and_unknown_blocks() {
    let mut fcr = fcr();
    let blocks = tree(&[node(1, 1, None, 0), node(2, 2, Some(1), 0), node(3, 3, Some(2), 0)]);
    for number in 1..=4 {
        fcr.track_block_creation(root(number), Slot::new(number));
    }
    assert_eq!(fcr.prune(root(9), &blocks), Err(Error::FinalizedBlockNotFound));
    assert_eq!(fcr.metadata_cache_size(), 4);
    assert_eq!(fcr.prune(root(2), &blocks), Ok(()));
    assert_eq!(fcr.metadata_cache_size(), 2);
    assert!(fcr.get_meta(&root(2)).is_some());
    assert!(fcr.get_meta(&root(3)).is_some());
}

#[test]
fn first_slot_of_an_epoch_uplifts_to_the_justified_block() {
    let blocks = tree(&[node(1, 1, None, 0), node(2, 33, Some(1), 0), node(3, 62, Some(2), 0)]);
    let mut fcr = fcr();
    let mut before = store(63);
    before.finalized_checkpoint = checkpoint(0, 1);
    before.unrealized_justified_checkpoint = checkpoint(1, 2);
    let update = fcr.on_new_slot(&blocks, &before, root(3)).unwrap();
    assert_eq!(update.latest.root, root(1));
    let mut boundary = before.clone();
    boundary.current_slot = Slot::new(64);
    let update = fcr.on_new_slot(&blocks, &boundary, root(3)).unwrap();
    assert!(update.epoch_boundary);
    assert_eq!(update.latest.restart, Some(Restart::Stale));
    assert_eq!(update.latest.root, root(2));
    assert_eq!(fcr.confirmed_root(), root(2));
    let mut later = boundary.clone();
    later.current_slot = Slot::new(65);
    let update = fcr.on_new_slot(&blocks, &later, root(3)).unwrap();
    assert_eq!(update.latest.restart, None);
    assert_eq!(update.latest.root, root(2));
    assert_eq!(update.confirmation, None);
}

#[test]
fn slots_of_a_reorg_are_measured_to_the_new_confirmed_block() {
    let blocks = tree(&[
        node(1, 1, None, 0),
        node(2, 33, Some(1), 0),
        node(3, 62, Some(2), 0),
        node(9, 40, Some(1), 0),
    ]);
    let mut fcr = fcr();
    let mut before = store(63);
    before.finalized_checkpoint = checkpoint(0, 9);
    before.unrealized_justified_checkpoint = checkpoint(1, 2);
    fcr.on_new_slot(&blocks, &before, root(9)).unwrap();
    assert_eq!(fcr.confirmed_root(), root(9));
    let mut boundary = store(64);
    boundary.finalized_checkpoint = checkpoint(0, 1);
    let latest = fcr.assess_latest_confirmed(&blocks, &boundary, root(3));
    assert_eq!(latest.root, root(2));
    assert_eq!(latest.restart, Some(Restart::Reorg(Some(40 - 33))));
    assert_eq!(latest.rollback_slots, Some(40 - 33));
    let mut later = store(65);
    later.finalized_checkpoint = checkpoint(0, 1);
    let latest = fcr.assess_latest_confirmed(&blocks, &later, root(3));
    assert_eq!(latest.root, root(1));
    assert_eq!(latest.restart, Some(Restart::Reorg(Some(40 - 1))));
    later.finalized_checkpoint = checkpoint(0, 77);
    let latest = fcr.assess_latest_confirmed(&blocks, &later, root(3));
    assert_eq!(latest.root, root(77));
    assert_eq!(latest.restart, Some(Restart::Reorg(None)));
    assert_eq!(latest.rollback_slots, None);
}

#[test]
fn reorg_to_a_later_block_counts_no_slots() {
    let blocks = tree(&[
        node(1, 1, None, 0),
        node(2, 50, Some(1), 0),
        node(3, 62, Some(2), 0),
        node(9, 40, Some(1), 0),
    ]);
    let mut fcr = fcr();
    let mut before = store(63);
    before.finalized_checkpoint = checkpoint(0, 9);
    before.unrealized_justified_checkpoint = checkpoint(1, 2);
    fcr.on_new_slot(&blocks, &before, root(9)).unwrap();
    let mut boundary = store(64);
    boundary.finalized_checkpoint = checkpoint(0, 1);
    let latest = fcr.assess_latest_confirmed(&blocks, &boundary, root(3));
    assert_eq!(latest.root, root(2));
    assert_eq!(latest.restart, Some(Restart::Reorg(Some(0))));
    assert_eq!(latest.rollback_slots, None);
}

#[test]
fn search_needs_a_known_start() {
    let blocks = tree(&[node(1, 1, None, 0)]);
    assert_eq!(
        fcr().find_latest_confirmed_descendant(root(9), &blocks, &store(5), root(1)),
        None
    );
    assert_eq!(
        fcr().find_latest_confirmed_descendant(root(1), &blocks, &store(5), root(9)),
        Some(root(1))
    );
}

fn justified(mut node: ProtoNode, epoch: u64) -> ProtoNode {
    node.block.unrealized_justified_checkpoint = Some(checkpoint(epoch, 1));
    node
}

#[test]
fn search_goes_as_far_as_the_votes() {
    let blocks = tree(&[
        node(1, 33, None, 3_200),
        node(2, 34, Some(1), 3_200),
        node(3, 35, Some(2), 3_200),
        justified(node(4, 36, Some(3), 0), 1),
    ]);
    let fcr = fcr();
    let find = |slot, head| {
        fcr.find_latest_confirmed_descendant(root(1), &blocks, &store(slot), root(head))
    };
    assert_eq!(find(37, 4), Some(root(3)));
    assert_eq!(find(37, 2), Some(root(1)));
    assert_eq!(find(35, 4), Some(root(2)));
}

#[test]
fn search_gives_up_on_blocks_that_cannot_be_checked() {
    let mut broken = node(2, 34, Some(1), 3_200);
    broken.weights.support = None;
    let blocks = tree(&[node(1, 33, None, 3_200), justified(broken, 1)]);
    assert_eq!(
        fcr().find_latest_confirmed_descendant(root(1), &blocks, &store(37), root(2)),
        None
    );
    let mut fcr = fcr();
    let mut now = store(37);
    now.finalized_checkpoint = checkpoint(0, 1);
    let update = fcr.on_new_slot(&blocks, &now, root(2)).unwrap();
    assert_eq!(update.latest.root, root(1));
}

#[test]
fn current_epoch_needs_justification() {
    let nodes = [
        node(1, 62, None, 3_200),
        node(2, 63, Some(1), 3_200),
        justified(node(3, 65, Some(2), 3_200), 1),
    ];
    let mut blocks = tree(&nodes);
    blocks.set_latest_messages(vec![vote(3, 2)]);
    let mut now = store(80);
    now.justified_balances.effective_balances = vec![3_200];
    let with_states = with_provider(OneState(state(Some(3_200), &[3_200])));
    assert_eq!(
        with_states.find_latest_confirmed_descendant(root(2), &blocks, &now, root(3)),
        Some(root(3))
    );
    let without_votes = with_provider(OneState(state(Some(3_200), &[0])));
    assert_eq!(
        without_votes.find_latest_confirmed_descendant(root(2), &blocks, &now, root(3)),
        Some(root(2))
    );
    let without_states = with_provider(OneState(None));
    assert_eq!(
        without_states.find_latest_confirmed_descendant(root(2), &blocks, &now, root(3)),
        Some(root(2))
    );
    now.unrealized_justified_checkpoint = checkpoint(2, 3);
    assert_eq!(
        without_states.find_latest_confirmed_descendant(root(2), &blocks, &now, root(3)),
        Some(root(3))
    );
}

#[test]
fn stale_votes_hold_the_search_back() {
    let nodes = [node(1, 161, None, 3_200), justified(node(2, 162, Some(1), 3_200), 5)];
    let mut blocks = tree(&nodes);
    let fcr = fcr();
    let mut now = store(164);
    now.justified_balances.effective_balances = vec![1];
    blocks.set_latest_messages(vec![vote(2, 3)]);
    assert_eq!(
        fcr.find_latest_confirmed_descendant(root(1), &blocks, &now, root(2)),
        Some(root(2))
    );
    blocks.set_latest_messages(vec![vote(2, 2)]);
    assert_eq!(
        fcr.find_latest_confirmed_descendant(root(1), &blocks, &now, root(2)),
        Some(root(1))
    );
}

#[test]
fn previous_epoch_is_walked_at_the_boundary() {
    let mut blocks = tree(&[
        node(1, 34, None, 3_200),
        node(2, 35, Some(1), 3_200),
        node(3, 36, Some(2), 3_200),
    ]);
    blocks.set_latest_messages(vec![vote(3, 1)]);
    let mut fcr = with_provider(OneState(state(Some(3_200), &[0])));
    let mut before = store(63);
    before.finalized_checkpoint = checkpoint(0, 1);
    before.justified_balances.effective_balances = vec![3_200];
    let update = fcr.on_new_slot(&blocks, &before, root(2)).unwrap();
    assert_eq!(update.latest.root, root(1));
    let mut boundary = before.clone();
    boundary.current_slot = Slot::new(64);
    assert_eq!(
        fcr.find_latest_confirmed_descendant(root(1), &blocks, &boundary, root(3)),
        Some(root(3))
    );
}

#[test]
fn labels_of_delays() {
    let record = |delay, slot| {
        confirmation_record(Some(delay), Slot::new(slot), Slot::new(9), Some(Slot::new(4)), 32)
    };
    let delays = [
        (0, DelayBucket::Zero, "0", None),
        (1, DelayBucket::One, "1", None),
        (2, DelayBucket::Two, "2", Some(TailBucket::Two)),
        (3, DelayBucket::ThreeOrMore, "ge3", Some(TailBucket::Three)),
        (4, DelayBucket::ThreeOrMore, "ge3", Some(TailBucket::FourOrMore)),
        (90, DelayBucket::ThreeOrMore, "ge3", Some(TailBucket::FourOrMore)),
    ];
    for (slots, bucket, label, tail) in delays {
        for slot in [64, 65] {
            let delay = record(slots, slot).delay.unwrap();
            assert_eq!(delay.slots, slots);
            assert_eq!(delay.bucket, bucket);
            assert_eq!(delay.bucket.label(), label);
            assert_eq!(
                delay.tail_case,
                tail.map(|delay_bucket| TailCase { epoch_boundary: slot == 64, delay_bucket })
            );
            assert_eq!(delay.timed_slots(), if slots > 0 { Some(slots) } else { None });
        }
    }
    assert_eq!(record(0, 5).head_gap_slots, Some(5));
    let unknown = confirmation_record(None, Slot::new(5), Slot::new(9), None, 32);
    assert_eq!(unknown.delay, None);
    assert_eq!(unknown.head_gap_slots, None);
    let ahead = confirmation_record(Some(0), Slot::new(5), Slot::new(3), Some(Slot::new(4)), 32);
    assert_eq!(ahead.head_gap_slots, Some(0));
}

#[test]
fn labels_of_tail_cases_and_restarts() {
    let tail = |epoch_boundary, delay_bucket| TailCase { epoch_boundary, delay_bucket }.labels();
    assert_eq!(tail(true, TailBucket::Two), ("true", "2"));
    assert_eq!(tail(false, TailBucket::Three), ("false", "3"));
    assert_eq!(tail(false, TailBucket::FourOrMore), ("false", "ge4"));
    assert_eq!(Restart::Reorg(None).label(), "reorg");
    assert_eq!(Restart::Reorg(Some(3)).label(), "reorg");
    assert_eq!(Restart::Stale.label(), "stale");
}

#[test]
fn gauges_of_the_fork_choice() {
    let mut fcr = fcr();
    fcr.track_block_creation(root(1), Slot::new(3));
    let gauges = scrape_for_metrics(5, 6, 7, true, Some(&fcr), ConfirmedHead::At(Slot::new(9)));
    assert_eq!((gauges.queued_attestations, gauges.nodes, gauges.indices), (5, 6, 7));
    assert_eq!(gauges.safe_head_slot, Some(9));
    assert_eq!(gauges.metadata_cache_size, Some(1));
    assert_eq!(gauges.byzantine_threshold_percentage, Some(33));
    let missing = scrape_for_metrics(0, 0, 0, true, Some(&fcr), ConfirmedHead::Missing);
    assert_eq!(missing.safe_head_slot, Some(0));
    let unknown = scrape_for_metrics(0, 0, 0, true, Some(&fcr), ConfirmedHead::Unknown);
    assert_eq!(unknown.safe_head_slot, None);
    assert_eq!(unknown.metadata_cache_size, Some(1));
    let disabled = scrape_for_metrics(5, 6, 7, false, Some(&fcr), ConfirmedHead::At(Slot::new(9)));
    assert_eq!(disabled.queued_attestations, 5);
    assert_eq!(disabled.safe_head_slot, Some(0));
    assert_eq!(disabled.metadata_cache_size, Some(0));
    assert_eq!(disabled.byzantine_threshold_percentage, Some(0));
    let absent =
        scrape_for_metrics::<DummyProvider>(5, 6, 7, true, None, ConfirmedHead::At(Slot::new(9)));
    assert_eq!(absent.safe_head_slot, None);
    assert_eq!(absent.metadata_cache_size, None);
    assert_eq!(absent.byzantine_threshold_percentage, None);
}
