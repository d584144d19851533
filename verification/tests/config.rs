use fork_choice::bench_api::DummyProvider;
use fork_choice::{
    Checkpoint, FastConfirmation, FastConfirmationConfig, ForkChoiceStore, Hash256,
    JustifiedBalances, ProtoArrayForkChoice, Slot, DEFAULT_FCR_BYZANTINE_THRESHOLD_PERCENTAGE,
    DEFAULT_FCR_SLASHING_THRESHOLD_PERCENTAGE,
};

fn empty_store() -> ForkChoiceStore {
    ForkChoiceStore {
        current_slot: Slot::new(5),
        justified_checkpoint: Checkpoint::default(),
        unrealized_justified_checkpoint: Checkpoint::default(),
        finalized_checkpoint: Checkpoint::default(),
        justified_balances: JustifiedBalances {
            effective_balances: vec![],
            total_effective_balance: 0,
        },
    }
}

#[test]
fn defaults_are_a_third() {
    assert_eq!(DEFAULT_FCR_BYZANTINE_THRESHOLD_PERCENTAGE, 33);
    assert_eq!(DEFAULT_FCR_SLASHING_THRESHOLD_PERCENTAGE, 33);
}

#[test]
fn new_takes_the_default_slashing_threshold() {
    let config = FastConfirmationConfig::new(25).unwrap();
    assert_eq!(config.beta_percentage, 25);
    assert_eq!(config.slashing_percentage, 33);
}

#[test]
fn byzantine_threshold_stays_below_half() {
    assert!(FastConfirmationConfig::new(49).is_ok());
    assert_eq!(
        FastConfirmationConfig::new(50).err(),
        Some("Invalid byzantine threshold: 50%, must be < 50%".to_string())
    );
    assert_eq!(
        FastConfirmationConfig::new(u64::MAX).err(),
        Some("Invalid byzantine threshold: 18446744073709551615%, must be < 50%".to_string())
    );
}

#[test]
fn slashing_threshold_is_a_percentage() {
    let config = FastConfirmationConfig::new_with_slashing(10, 100).unwrap();
    assert_eq!(config.beta_percentage, 10);
    assert_eq!(config.slashing_percentage, 100);
    assert_eq!(
        FastConfirmationConfig::new_with_slashing(10, 101).err(),
        Some("Invalid slashing threshold: 101%, must be <= 100%".to_string())
    );
}

#[test]
fn byzantine_threshold_is_looked_at_first() {
    assert_eq!(
        FastConfirmationConfig::new_with_slashing(60, 101).err(),
        Some("Invalid byzantine threshold: 60%, must be < 50%".to_string())
    );
}

#[test]
fn fcr_algorithm_threshold_tests() {
    let thresholds = [0, 10, 25, 40, 49];
    for &threshold in &thresholds {
        let config = FastConfirmationConfig::new(threshold).unwrap();
        let fcr = FastConfirmation::new(config, 32, DummyProvider);
        let confirmed_root =
            fcr.get_latest_confirmed(&ProtoArrayForkChoice::new(), &empty_store(), Hash256::zero());
        assert!(confirmed_root.is_some(), "FCR should work with threshold {}", threshold);
        assert_eq!(fcr.beta_percentage(), threshold, "Threshold should be correctly set");
        assert_eq!(fcr.config().beta_percentage, threshold);
        assert_eq!(fcr.config().slashing_percentage, 33);
    }
}
