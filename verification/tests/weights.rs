use fork_choice::bench_api::{
    bench_adjust_committee_weight_estimate, bench_calculate_cross_epoch_weight_estimate,
    bench_committee_weight_with_validators, bench_epoch_boundary_weights,
    bench_ffg_support_with_validators, bench_get_ffg_weight_till_slot,
    bench_is_full_validator_set_covered, bench_is_one_confirmed_math,
    bench_is_one_confirmed_w_estimate, SLOTS_PER_EPOCH,
};
use fork_choice::committee_weight::{
    adjust_committee_weight_estimate_to_ensure_safety, check_lmd_ghost_confirmation_inequality,
    get_committee_weight_between_slots, is_full_validator_set_covered,
};
use fork_choice::ffg::get_honest_ffg_weight;
use fork_choice::{Epoch, Slot};

const TOTAL: u64 = 32_000_000_000;

#[test]
fn fcr_adjust_committee_weight_estimate_tests() {
    for estimate in [1000u64, 10000, 100000, 1000000] {
        assert_eq!(bench_adjust_committee_weight_estimate(estimate), estimate * 1005 / 1000);
    }
    let zero_adjusted = bench_adjust_committee_weight_estimate(0);
    assert_eq!(zero_adjusted, 0, "Zero estimate should remain zero after adjustment");
    let large_estimate = 1_000_000_000u64;
    let large_adjusted = bench_adjust_committee_weight_estimate(large_estimate);
    assert!(large_adjusted > large_estimate, "Large estimate should be increased");
    assert_eq!(
        large_adjusted - large_estimate,
        large_estimate * 5 / 1000,
        "Adjustment should be exactly 0.5%"
    );
    assert_eq!(
        bench_adjust_committee_weight_estimate(1),
        1,
        "Small estimate should round down to 1"
    );
    assert_eq!(
        bench_adjust_committee_weight_estimate(199),
        199,
        "199 should round down to 199"
    );
    assert_eq!(bench_adjust_committee_weight_estimate(200), 201, "200 should round up to 201");
}

#[test]
fn margin_of_the_largest_estimate() {
    let largest = u64::MAX as u128;
    assert_eq!(
        adjust_committee_weight_estimate_to_ensure_safety(u64::MAX),
        largest * 1005 / 1000
    );
}

#[test]
fn fcr_committee_weight_calculation_tests() {
    let current_slot = Slot::new(70);
    let start_slot = current_slot.saturating_sub(2);
    let end_slot = current_slot.saturating_sub(1);
    assert_eq!(
        start_slot.epoch(32),
        end_slot.epoch(32),
        "Slots should be in same epoch for this test"
    );
    assert_eq!(get_committee_weight_between_slots(start_slot, end_slot, TOTAL, 32), 2_000_000_000);

    let cross_start_slot = Epoch::new(1).start_slot(32).saturating_sub(2);
    let cross_end_slot = Epoch::new(2).start_slot(32).saturating_add(2);
    assert_ne!(
        cross_start_slot.epoch(32),
        cross_end_slot.epoch(32),
        "Slots should span epoch boundary"
    );
    assert_eq!(
        get_committee_weight_between_slots(cross_start_slot, cross_end_slot, TOTAL, 32),
        TOTAL as u128
    );

    let current_epoch = current_slot.epoch(32);
    let full_start_slot = current_epoch.start_slot(32);
    let full_end_slot = current_epoch.saturating_add(1).start_slot(32).saturating_sub(1);
    assert!(
        full_end_slot.epoch(32).as_u64() >= full_start_slot.epoch(32).as_u64(),
        "Should cover at least one epoch"
    );
    assert!(is_full_validator_set_covered(full_start_slot, full_end_slot, 32));
    assert_eq!(
        get_committee_weight_between_slots(full_start_slot, full_end_slot, TOTAL + 7, 32),
        TOTAL as u128 + 7
    );

    let invalid_start = current_slot;
    let invalid_end = current_slot.saturating_sub(1);
    assert!(invalid_start > invalid_end, "Invalid slot range for testing");
    assert_eq!(get_committee_weight_between_slots(invalid_start, invalid_end, TOTAL, 32), 0);

    assert_eq!(
        get_committee_weight_between_slots(current_slot, current_slot, TOTAL, 32),
        1_000_000_000
    );
}

#[test]
fn fcr_cross_epoch_weight_edge_cases() {
    let current_epoch = Epoch::new(5);
    let epoch_boundary_start = current_epoch.start_slot(32).saturating_sub(1);
    let epoch_boundary_end = current_epoch.saturating_add(1).start_slot(32);
    assert_eq!(
        epoch_boundary_start.epoch(32).saturating_add(2),
        epoch_boundary_end.epoch(32),
        "Should span exactly one epoch boundary"
    );
    assert!(is_full_validator_set_covered(epoch_boundary_start, epoch_boundary_end, 32));

    let single_start = current_epoch.start_slot(32);
    let single_end = current_epoch.saturating_add(1).start_slot(32);
    assert_eq!(
        single_start.epoch(32).saturating_add(1),
        single_end.epoch(32),
        "Should span epoch boundary with single slots"
    );
    assert!(is_full_validator_set_covered(single_start, single_end, 32));

    let multi_start = current_epoch.start_slot(32);
    let multi_end = current_epoch.saturating_add(1).start_slot(32).saturating_sub(1);
    assert!(
        multi_end.epoch(32).as_u64() >= multi_start.epoch(32).as_u64(),
        "Should span at least one epoch"
    );

    let estimate = bench_calculate_cross_epoch_weight_estimate(Slot::new(31), Slot::new(32), TOTAL);
    assert_eq!(estimate, 1_000_000_000 + 31_250_000 * 31);
    assert_eq!(
        get_committee_weight_between_slots(Slot::new(31), Slot::new(32), TOTAL, 32),
        estimate as u128 * 1005 / 1000
    );
}

#[test]
fn cross_epoch_estimates() {
    assert_eq!(
        bench_calculate_cross_epoch_weight_estimate(Slot::new(28), Slot::new(40), TOTAL),
        9 * 1_000_000_000 + 31_250_000 * 4 * 23
    );
    assert_eq!(
        bench_calculate_cross_epoch_weight_estimate(Slot::new(0), Slot::new(3), TOTAL),
        4 * 1_000_000_000 + 31_250_000 * 32 * 28
    );
}

#[test]
fn coverage_of_whole_epochs() {
    assert!(bench_is_full_validator_set_covered(Slot::new(0), Slot::new(31)));
    assert!(bench_is_full_validator_set_covered(Slot::new(0), Slot::new(32)));
    assert!(!bench_is_full_validator_set_covered(Slot::new(1), Slot::new(40)));
    assert!(!bench_is_full_validator_set_covered(Slot::new(0), Slot::new(30)));
    assert!(bench_is_full_validator_set_covered(Slot::new(1), Slot::new(63)));
    assert!(bench_is_full_validator_set_covered(Slot::new(31), Slot::new(64)));
    assert!(!bench_is_full_validator_set_covered(Slot::new(40), Slot::new(3)));
    assert!(!bench_is_full_validator_set_covered(Slot::new(u64::MAX), Slot::new(u64::MAX)));
}

#[test]
fn ffg_weight_of_an_epoch() {
    let expected = [
        (0, 0),
        (1, 1_000_000_000),
        (15, 15_000_000_000),
        (31, 31_000_000_000),
        (32, TOTAL),
        (40, TOTAL),
    ];
    for (slot, weight) in expected {
        assert_eq!(
            bench_get_ffg_weight_till_slot(Slot::new(slot), Epoch::new(0), TOTAL),
            weight
        );
    }
    assert_eq!(bench_get_ffg_weight_till_slot(Slot::new(40), Epoch::new(2), TOTAL), 0);
    assert_eq!(bench_get_ffg_weight_till_slot(Slot::new(64), Epoch::new(2), TOTAL), 0);
    assert_eq!(bench_get_ffg_weight_till_slot(Slot::new(65), Epoch::new(2), TOTAL), 1_000_000_000);
}

#[test]
fn ffg_weight_never_falls() {
    let mut last = 0;
    for slot in 0..100 {
        let weight = bench_get_ffg_weight_till_slot(Slot::new(slot), Epoch::new(1), TOTAL);
        assert!(last <= weight && weight <= TOTAL);
        last = weight;
    }
    assert_eq!(last, TOTAL);
}

#[test]
fn confirmation_inequality() {
    assert!(!bench_is_one_confirmed_math(10_000_000_000, 15_000_000_000, 0, 25));
    assert!(bench_is_one_confirmed_math(18_000_000_000, 20_000_000_000, 100_000, 25));
    assert!(bench_is_one_confirmed_math(30_000_000_000, 32_000_000_000, 500_000, 33));
    assert!(!bench_is_one_confirmed_math(6_000_000_000, 10_000_000_000, 0, 10));
}

#[test]
fn confirmation_inequality_is_strict() {
    assert!(!check_lmd_ghost_confirmation_inequality(75, 100, 0, 25));
    assert!(check_lmd_ghost_confirmation_inequality(76, 100, 0, 25));
    assert!(!check_lmd_ghost_confirmation_inequality(76, 100, 2, 25));
    assert!(check_lmd_ghost_confirmation_inequality(77, 100, 2, 25));
    assert!(!check_lmd_ghost_confirmation_inequality(0, 0, 0, 0));
    assert!(check_lmd_ghost_confirmation_inequality(1, 0, 0, 49));
}

#[test]
fn confirmation_inequality_rounds_nothing() {
    assert!(!check_lmd_ghost_confirmation_inequality(30, 49, 0, 33));
    assert!(!check_lmd_ghost_confirmation_inequality(40, 49, 0, 33));
    assert!(check_lmd_ghost_confirmation_inequality(41, 49, 0, 33));
    assert!(!check_lmd_ghost_confirmation_inequality(41, 49, 1, 33));
    assert!(check_lmd_ghost_confirmation_inequality(50, 99, 0, 0));
    assert!(!check_lmd_ghost_confirmation_inequality(98, 99, 0, 49));
    assert!(check_lmd_ghost_confirmation_inequality(99, 99, 0, 49));
    for committee in 0..200u128 {
        for support in 0..200u64 {
            assert_eq!(
                check_lmd_ghost_confirmation_inequality(support, committee, 3, 33),
                200 * support as u128 > committee * 166 + 300
            );
        }
    }
}

#[test]
fn benchmark_inequality_takes_whole_fiftieths() {
    assert!(bench_is_one_confirmed_math(30, 49, 0, 33));
    assert!(!bench_is_one_confirmed_math(24, 49, 0, 33));
}

#[test]
fn confirmation_inequality_with_the_largest_weights() {
    assert!(check_lmd_ghost_confirmation_inequality(u64::MAX, u64::MAX as u128, 0, 49));
    assert!(!check_lmd_ghost_confirmation_inequality(
        u64::MAX,
        2 * u64::MAX as u128,
        u64::MAX,
        u64::MAX
    ));
    assert!(!bench_is_one_confirmed_math(u64::MAX, u64::MAX, u64::MAX, 49));
}

#[test]
fn lower_thresholds_confirm_more() {
    let mut confirmed = false;
    for beta in (0..50).rev() {
        let now = check_lmd_ghost_confirmation_inequality(70, 100, 0, beta);
        assert!(now || !confirmed);
        confirmed = now;
    }
    assert!(confirmed);
    assert!(!check_lmd_ghost_confirmation_inequality(70, 100, 0, 20));
    assert!(check_lmd_ghost_confirmation_inequality(70, 100, 0, 19));
}

#[test]
fn confirmation_with_estimated_committees() {
    let same_epoch =
        |support| bench_is_one_confirmed_w_estimate(support, TOTAL, Slot::new(0), Slot::new(3), 0, 25);
    assert!(!same_epoch(3_000_000_000));
    assert!(same_epoch(3_000_000_001));
    let committee = (1_000_000_000u64 + 31_250_000 * 31) * 1005 / 1000;
    let needed = committee + committee / 50 * 25;
    let cross_epoch =
        |support| bench_is_one_confirmed_w_estimate(support, TOTAL, Slot::new(31), Slot::new(32), 0, 25);
    assert!(!cross_epoch(needed / 2));
    assert!(cross_epoch(needed / 2 + 1));
}

#[test]
fn honest_weights() {
    assert_eq!(get_honest_ffg_weight(10_000, 0, 0, 33, 33), 6_700);
    assert_eq!(get_honest_ffg_weight(10_000, 5_000, 5_000, 33, 33), 5_000 - 1_650 + 3_350);
    assert_eq!(get_honest_ffg_weight(10_000, 5_000, 5_000, 33, 10), 5_000 - 500 + 3_350);
    assert_eq!(get_honest_ffg_weight(10_000, 10_000, 100, 33, 33), 0);
    assert_eq!(get_honest_ffg_weight(199, 100, 100, 0, 0), 100);
    assert_eq!(get_honest_ffg_weight(10_000, 2_000, 500, 100, 100), 0);
}

#[test]
fn higher_thresholds_leave_less_honest_weight() {
    let mut last = u128::MAX;
    for beta in 0..=100 {
        let weight = get_honest_ffg_weight(1_000_000, 400_000, 350_000, beta, 33);
        assert!(weight <= last);
        last = weight;
    }
}

#[test]
fn benchmark_sizes() {
    assert_eq!(SLOTS_PER_EPOCH, 32);
    assert_eq!(bench_committee_weight_with_validators(1_000), 1_000_000_000_000);
    assert_eq!(bench_ffg_support_with_validators(3), 64_000_000_000);
    assert_eq!(bench_epoch_boundary_weights(), 1_000_000_000_000);
}
