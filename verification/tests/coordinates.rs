use patchwork::binary64::{
    bit_length_of, floor_shifted_of, offset_bits, round_to_binary64, two_to,
};

fn cell(x: f64) -> i32 {
    floor_shifted_of(x.to_bits(), 4)
}

fn moved(x: f64, k: i64) -> f64 {
    f64::from_bits(offset_bits(x.to_bits(), k))
}

/// A sequence of bit patterns that looks arbitrary and is the same in
/// every run.
fn patterns(count: usize) -> Vec<u64> {
    let mut state: u64 = 0x9e37_79b9_7f4a_7c15;
    let mut out: Vec<u64> = Vec::new();
    for _ in 0..count {
        state ^= state << 13;
        state ^= state >> 7;
        state ^= state << 17;
        out.push(state);
    }
    out
}

#[test]
fn cell_of_a_position_is_rounded_down() {
    assert_eq!(cell(0.0), 0);
    assert_eq!(cell(15.999), 0);
    assert_eq!(cell(16.0), 1);
    assert_eq!(cell(17.0), 1);
    assert_eq!(cell(31.999_999), 1);
    assert_eq!(cell(32.0), 2);
    assert_eq!(cell(1600.5), 100);
}

#[test]
fn cell_of_a_negative_position_is_rounded_down() {
    assert_eq!(cell(-0.0), 0);
    assert_eq!(cell(-0.001), -1);
    assert_eq!(cell(-16.0), -1);
    assert_eq!(cell(-16.000_001), -2);
    assert_eq!(cell(-17.0), -2);
    assert_eq!(cell(-32.0), -2);
    assert_eq!(cell(f64::from_bits(0x8000_0000_0000_0001)), -1);
}

#[test]
fn cell_of_a_tiny_position_is_zero() {
    assert_eq!(cell(f64::from_bits(1)), 0);
    assert_eq!(cell(f64::MIN_POSITIVE), 0);
    assert_eq!(cell(1e-300), 0);
}

#[test]
fn cell_of_a_far_position_is_held_to_the_range() {
    assert_eq!(cell(1e300), i32::MAX);
    assert_eq!(cell(-1e300), i32::MIN);
    assert_eq!(cell(f64::INFINITY), i32::MAX);
    assert_eq!(cell(f64::NEG_INFINITY), i32::MIN);
    assert_eq!(cell(16.0 * 2_147_483_647.0), i32::MAX);
    assert_eq!(cell(16.0 * 2_147_483_648.0), i32::MAX);
    assert_eq!(cell(-16.0 * 2_147_483_648.0), i32::MIN);
    assert_eq!(cell(-16.0 * 2_147_483_647.0), -2_147_483_647);
}

#[test]
fn cell_of_no_number_is_zero() {
    assert_eq!(cell(f64::NAN), 0);
    assert_eq!(floor_shifted_of(0xfff0_0000_0000_0001, 4), 0);
}

#[test]
fn cell_agrees_with_the_division() {
    for bits in patterns(20_000) {
        let x = f64::from_bits(bits);
        if x.is_nan() {
            continue;
        }
        let expected = (x / 16.0).floor() as i32;
        assert_eq!(floor_shifted_of(bits, 4), expected, "bits {bits:#x}");
    }
    let mut x: f64 = -100.0;
    while x < 100.0 {
        assert_eq!(cell(x), (x / 16.0).floor() as i32, "x {x}");
        x += 0.37;
    }
}

#[test]
fn shift_of_zero_rounds_down_to_a_whole_number() {
    assert_eq!(floor_shifted_of(2.75f64.to_bits(), 0), 2);
    assert_eq!(floor_shifted_of((-2.75f64).to_bits(), 0), -3);
    assert_eq!(floor_shifted_of(1024.0f64.to_bits(), 10), 1);
    assert_eq!(floor_shifted_of(1023.0f64.to_bits(), 10), 0);
    assert_eq!(floor_shifted_of(1.0f64.to_bits(), 64), 0);
    assert_eq!(floor_shifted_of((-1.0f64).to_bits(), 64), -1);
}

#[test]
fn offset_moves_a_position() {
    assert_eq!(moved(17.0, -16), 1.0);
    assert_eq!(moved(1.0, 16), 17.0);
    assert_eq!(moved(5.5, 32), 37.5);
    assert_eq!(moved(-3.25, 16), 12.75);
    assert_eq!(moved(3.25, -16), -12.75);
    assert_eq!(moved(0.0, 48), 48.0);
    assert_eq!(moved(-0.0, -48), -48.0);
}

#[test]
fn offset_that_cancels_gives_zero() {
    assert_eq!(offset_bits(16.0f64.to_bits(), -16), 0);
    assert_eq!(offset_bits((-16.0f64).to_bits(), 16), 0);
}

#[test]
fn offset_of_zero_changes_nothing() {
    for bits in patterns(1000) {
        assert_eq!(offset_bits(bits, 0), bits);
    }
    assert_eq!(offset_bits(0x8000_0000_0000_0000, 0), 0x8000_0000_0000_0000);
}

#[test]
fn offset_leaves_what_is_not_finite() {
    assert_eq!(moved(f64::INFINITY, 16), f64::INFINITY);
    assert_eq!(moved(f64::NEG_INFINITY, 16), f64::NEG_INFINITY);
    let nan: u64 = 0x7ff8_0000_0000_0abc;
    assert_eq!(offset_bits(nan, -160), nan);
}

#[test]
fn offset_rounds_to_the_nearest_number() {
    assert_eq!(moved(0.1, 16), 0.1 + 16.0);
    assert_eq!(moved(0.1, -16), 0.1 - 16.0);
    assert_eq!(moved(1e-30, 16), 16.0);
    assert_eq!(moved(-1e-30, 16), 16.0);
    assert_eq!(moved(1e30, 16), 1e30);
    assert_eq!(moved(f64::from_bits(1), 1), 1.0);
    assert_eq!(moved(9_007_199_254_740_992.0, 1), 9_007_199_254_740_992.0);
    assert_eq!(moved(9_007_199_254_740_994.0, 1), 9_007_199_254_740_996.0);
    assert_eq!(moved(9_007_199_254_740_992.0, -1), 9_007_199_254_740_991.0);
}

#[test]
fn offset_agrees_with_the_sum() {
    let offsets: [i64; 14] = [
        1,
        -1,
        16,
        -16,
        160,
        -1600,
        65_536,
        -1_048_576,
        34_359_738_352,
        -34_359_738_368,
        1_099_511_627_775,
        -1_099_511_627_775,
        12_345_678_901,
        -999_999_999_999,
    ];
    for bits in patterns(4000) {
        let x = f64::from_bits(bits);
        if !x.is_finite() {
            continue;
        }
        for k in offsets {
            let expected = x + k as f64;
            assert_eq!(offset_bits(bits, k), expected.to_bits(), "bits {bits:#x} offset {k}");
        }
    }
}

#[test]
fn offset_agrees_with_the_sum_near_the_offset() {
    let offsets: [i64; 6] = [16, -16, 1600, -4096, 1_099_511_627_775, -1_099_511_627_775];
    for pattern in patterns(4000) {
        for k in offsets {
            let scale: f64 = ((pattern % 4001) as f64 - 2000.0) / 1000.0;
            let x: f64 = -(k as f64) * scale + f64::from_bits(pattern >> 12 | 0x3c00_0000_0000_0000);
            let expected = x + k as f64;
            assert_eq!(offset_bits(x.to_bits(), k), expected.to_bits(), "x {x} offset {k}");
        }
    }
}

#[test]
fn offset_there_and_back_restores_a_block_position() {
    let mut x: f64 = -2048.0;
    while x <= 2048.0 {
        for k in [16i64, -16, 160, -4096] {
            let there = offset_bits(x.to_bits(), k);
            if x != 0.0 || !x.is_sign_negative() {
                assert_eq!(offset_bits(there, -k), x.to_bits(), "x {x} offset {k}");
            }
        }
        x += 0.125;
    }
}

#[test]
fn powers_of_two() {
    assert_eq!(two_to(0), 1);
    assert_eq!(two_to(1), 2);
    assert_eq!(two_to(10), 1024);
    assert_eq!(two_to(64), 1u128 << 64);
    assert_eq!(two_to(126), 1u128 << 126);
}

#[test]
fn bit_lengths() {
    assert_eq!(bit_length_of(0), 0);
    assert_eq!(bit_length_of(1), 1);
    assert_eq!(bit_length_of(2), 2);
    assert_eq!(bit_length_of(255), 8);
    assert_eq!(bit_length_of(256), 9);
    assert_eq!(bit_length_of(u128::MAX), 128);
}

#[test]
fn rounding_keeps_fifty_three_bits() {
    assert_eq!(round_to_binary64(false, 0, 0), 0);
    assert_eq!(round_to_binary64(false, 1, 0), 1.0f64.to_bits());
    assert_eq!(round_to_binary64(true, 3, -1), (-1.5f64).to_bits());
    assert_eq!(round_to_binary64(false, 5, 4), 80.0f64.to_bits());
    let two_53: u128 = 1u128 << 53;
    assert_eq!(round_to_binary64(false, two_53 + 1, 0), (two_53 as f64).to_bits());
    assert_eq!(round_to_binary64(false, two_53 + 3, 0), ((two_53 + 4) as f64).to_bits());
    assert_eq!(round_to_binary64(false, two_53 + 2, 0), ((two_53 + 2) as f64).to_bits());
    assert_eq!(round_to_binary64(false, (two_53 << 1) - 1, 0), ((two_53 << 1) as f64).to_bits());
    for pattern in patterns(2000) {
        let a: u128 = (pattern as u128) << (pattern % 40);
        assert_eq!(round_to_binary64(pattern % 2 == 1, a, 0), {
            let v = a as f64;
            if a == 0 {
                0
            } else if pattern % 2 == 1 {
                (-v).to_bits()
            } else {
                v.to_bits()
            }
        });
    }
}

#[test]
fn offset_there_and_back_may_round() {
    let there = offset_bits(0.1f64.to_bits(), 16);
    assert_eq!(there, (0.1f64 + 16.0).to_bits());
    let back = f64::from_bits(offset_bits(there, -16));
    assert_eq!(back, (0.1f64 + 16.0) - 16.0);
    assert_ne!(back, 0.1);
}

#[test]
fn negative_zero_comes_back_positive() {
    let there = offset_bits((-0.0f64).to_bits(), 16);
    assert_eq!(there, 16.0f64.to_bits());
    assert_eq!(offset_bits(there, -16), 0.0f64.to_bits());
}

#[test]
fn offset_at_a_tie_keeps_the_even_significand() {
    let two_53: f64 = 9_007_199_254_740_992.0;
    assert_eq!(moved(two_53, 1), two_53);
    assert_eq!(moved(two_53 + 2.0, 1), two_53 + 4.0);
    assert_eq!(moved(two_53 + 4.0, 1), two_53 + 4.0);
    assert_eq!(moved(-two_53, -1), -two_53);
    assert_eq!(moved(-two_53 - 2.0, -1), -two_53 - 4.0);
}
