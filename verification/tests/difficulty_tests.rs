//! The difficulty controller and the proof-of-work threshold.

use neptune_core::difficulty::difficulty_control;
use neptune_core::difficulty::target;
use neptune_core::difficulty::Difficulty;
use neptune_core::difficulty::MINIMUM_DIFFICULTY;
use neptune_core::timestamp::Timestamp;
use neptune_core::timestamp::TARGET_BLOCK_INTERVAL_MILLIS;
use neptune_core::FIELD_PRIME;

#[test]
fn difficulty_to_threshold_test() {
    // Verify that a difficulty of 2 accepts half of the digests: every
    // base-prime digit of the threshold is half the largest digit.
    let difficulty = Difficulty::from_u32(2);
    let threshold_for_difficulty_two = target(&difficulty);

    let max_element = FIELD_PRIME - 1;
    for elem in threshold_for_difficulty_two.values() {
        assert_eq!(max_element / 2, elem);
    }

    // Verify that a difficulty equal to the field modulus accepts all
    // digests whose most significant digit is zero.
    let some_difficulty = Difficulty { lo: FIELD_PRIME as u128, hi: 0 };
    let some_threshold_actual = target(&some_difficulty);

    assert_eq!(0u64, some_threshold_actual.values()[4]);
    for elem in &some_threshold_actual.values()[0..4] {
        assert_eq!(max_element, *elem);
    }
}

#[test]
fn threshold_scales_inversely_with_difficulty() {
    let lower = target(&Difficulty::from_u32(1000));
    let higher = target(&Difficulty::from_u32(4000));
    assert!(higher.is_at_most(&lower));
    assert!(!lower.is_at_most(&higher));
}

#[test]
fn controller_holds_difficulty_on_genesis_parent() {
    let prev = Difficulty::from_u32(12345);
    let out = difficulty_control(
        Timestamp::millis(99),
        Timestamp::millis(0),
        prev,
        None,
        0,
    );
    assert_eq!(out, prev);
}

#[test]
fn controller_raises_on_fast_blocks_and_lowers_on_slow_ones() {
    let prev = Difficulty::from_u32(50_000);
    let t0 = Timestamp::millis(1_000_000);
    // Ten times faster than the target interval.
    let fast = difficulty_control(
        Timestamp::millis(1_000_000 + TARGET_BLOCK_INTERVAL_MILLIS / 10),
        t0,
        prev,
        None,
        7,
    );
    assert!(fast.is_at_least(&prev));
    // Ten times slower.
    let slow = difficulty_control(
        Timestamp::millis(1_000_000 + TARGET_BLOCK_INTERVAL_MILLIS * 10),
        t0,
        prev,
        None,
        7,
    );
    assert!(prev.is_at_least(&slow));
    assert!(slow.is_at_least(&Difficulty::minimum()));
}

#[test]
fn controller_saturates_at_the_minimum() {
    let prev = Difficulty::minimum();
    // An interval so long the correction would push far below the floor.
    let out = difficulty_control(
        Timestamp::millis(2_000_000_000),
        Timestamp::millis(0),
        prev,
        None,
        3,
    );
    assert_eq!(out, Difficulty::minimum());
    let _ = MINIMUM_DIFFICULTY;
}

#[test]
fn controller_exact_proportional_step() {
    // One second late lowers the difficulty by exactly ten units.
    let prev = Difficulty::from_u32(100_000);
    let out = difficulty_control(
        Timestamp::millis(10_000 + TARGET_BLOCK_INTERVAL_MILLIS + 1000),
        Timestamp::millis(10_000),
        prev,
        None,
        5,
    );
    assert_eq!(out, Difficulty::from_u32(100_000 - 10));
    // One second early raises it by ten.
    let out_fast = difficulty_control(
        Timestamp::millis(10_000 + TARGET_BLOCK_INTERVAL_MILLIS - 1000),
        Timestamp::millis(10_000),
        prev,
        None,
        5,
    );
    assert_eq!(out_fast, Difficulty::from_u32(100_000 + 10));
}
