use fork_choice::bench_api::{
    bench_cross_epoch_confirmation, bench_epoch_boundary_transition, bench_fcr_metadata_growth,
    bench_fcr_pruning, bench_late_attestation_handling, bench_memory_usage_with_validators,
    bench_no_op, bench_reorg_detection, bench_safe_head_advancement, bench_safe_head_calculation,
    bench_safe_head_reorg, bench_update_fcr_after_find_head, retain_even_roots,
};
use fork_choice::root_map::RootMap;
use fork_choice::{Checkpoint, Epoch, Error, FcrMeta, Hash256, Slot};

fn root_starting_with(byte: u8, rest: u64) -> Hash256 {
    Hash256 { hi: (byte as u128) << 120, lo: rest as u128 }
}

#[test]
fn bytes_of_a_root() {
    let root = Hash256 {
        hi: 0x0102_0304_0506_0708_090a_0b0c_0d0e_0f10,
        lo: 0x1112_1314_1516_1718_191a_1b1c_1d1e_1f20,
    };
    let bytes = root.to_bytes();
    for i in 0..32 {
        assert_eq!(bytes[i], i as u8 + 1);
    }
    assert_eq!(Hash256::from_low_u64_be(258).to_bytes()[30], 1);
    assert_eq!(Hash256::from_low_u64_be(258).to_bytes()[31], 2);
}

#[test]
fn pruning_by_the_first_byte() {
    let mut meta: RootMap<FcrMeta> = RootMap::new();
    for byte in 0..=255u8 {
        meta.insert(root_starting_with(byte, 7), FcrMeta::default());
    }
    assert_eq!(meta.len(), 256);
    retain_even_roots(&mut meta);
    assert_eq!(meta.len(), 128);
    assert!(meta.contains_key(&root_starting_with(0, 7)));
    assert!(!meta.contains_key(&root_starting_with(1, 7)));
    assert!(meta.contains_key(&root_starting_with(254, 7)));
    assert!(!meta.contains_key(&root_starting_with(255, 7)));
}

#[test]
fn map_of_roots() {
    let mut map: RootMap<u64> = RootMap::new();
    for i in [5u64, 1, 4, 2, 3, 5] {
        map.insert(Hash256::from_low_u64_be(i), 10 * i);
    }
    assert_eq!(map.len(), 5);
    assert_eq!(map.get(&Hash256::from_low_u64_be(4)), Some(&40));
    assert_eq!(map.get(&Hash256::from_low_u64_be(6)), None);
    map.insert(Hash256::from_low_u64_be(4), 41);
    assert_eq!(map.len(), 5);
    assert_eq!(map.get(&Hash256::from_low_u64_be(4)), Some(&41));
    for i in 0..5usize {
        assert_eq!(map.entry(i).0, Hash256::from_low_u64_be(i as u64 + 1));
    }
}

#[test]
fn memory_grows_with_the_validators() {
    assert_eq!(bench_memory_usage_with_validators(0), 1);
    assert_eq!(bench_memory_usage_with_validators(999), 1);
    assert_eq!(bench_memory_usage_with_validators(1_000), 1);
    assert_eq!(bench_memory_usage_with_validators(2_999), 2);
    assert_eq!(bench_memory_usage_with_validators(50_000), 50);
}

#[test]
fn benchmarks_run() {
    bench_no_op();
    bench_update_fcr_after_find_head();
    bench_fcr_metadata_growth();
    bench_fcr_pruning();
    bench_epoch_boundary_transition();
    bench_reorg_detection();
    bench_late_attestation_handling();
    bench_safe_head_reorg();
    bench_cross_epoch_confirmation();
    assert_eq!(bench_safe_head_calculation(), Hash256::from_low_u64_be(100));
    assert_eq!(bench_safe_head_advancement(), Hash256::from_low_u64_be(101));
}

#[test]
fn slots_and_epochs() {
    assert_eq!(Slot::new(63).epoch(32), Epoch::new(1));
    assert_eq!(Epoch::new(2).start_slot(32), Slot::new(64));
    assert_eq!(Epoch::new(u64::MAX).start_slot(32), Slot::new(u64::MAX));
    assert!(Slot::new(64).is_epoch_start(32));
    assert!(!Slot::new(65).is_epoch_start(32));
    assert_eq!(Slot::new(0).saturating_sub(1), Slot::new(0));
    assert_eq!(Slot::new(u64::MAX).saturating_add(1), Slot::new(u64::MAX));
    assert_eq!(Epoch::new(1).saturating_sub(2), Epoch::new(0));
    assert_eq!(Epoch::new(1).saturating_add(2).as_u64(), 3);
    assert_eq!(
        Checkpoint::default(),
        Checkpoint { epoch: Epoch::new(0), root: Hash256::zero() }
    );
}

#[test]
fn error_messages() {
    let root = Hash256::from_low_u64_be(0xab);
    let text = format!("0x{}ab", "0".repeat(62));
    assert_eq!(
        Error::BlockNotFound(root).message(),
        format!("Block {} not found in proto array", text)
    );
    assert_eq!(
        Error::ParentNotFound(root).message(),
        format!("Parent block {} not found in proto array", text)
    );
    assert_eq!(
        Error::WeightNotFound(root).message(),
        format!("Failed to get weight for block {}", text)
    );
    assert_eq!(
        Error::CheckpointNotInCurrentEpoch.message(),
        "Checkpoint is not from current epoch"
    );
    assert_eq!(
        Error::TotalActiveBalanceUnavailable.message(),
        "Failed to get total active balance from checkpoint state"
    );
    assert_eq!(
        Error::FinalizedBlockNotFound.message(),
        "Finalized block not found in proto array during FCR pruning"
    );
}
