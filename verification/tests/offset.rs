use llts::offset::adjust_offset;
use llts::initial_offset;

#[test]
fn half_step_truncates_toward_zero_positive() {
    // remote 7 against local estimate 0: diff = 7, offset moves by 3
    assert_eq!(adjust_offset(0, 0, 7), 3);
}

#[test]
fn half_step_truncates_toward_zero_negative() {
    // remote 0 against local estimate 7: diff = -7, offset moves by -3
    assert_eq!(adjust_offset(0, 7, 0), -3);
}

#[test]
fn half_step_even_diff() {
    // local estimate 900 (clock 1000, offset -100), remote 1000: diff = 100
    assert_eq!(adjust_offset(-100, 1000, 1000), -50);
}

#[test]
fn offset_starts_at_zero() {
    assert_eq!(initial_offset(), 0);
}

#[test]
fn two_nodes_converge_with_zero_delay() {
    // Node clocks disagree by a fixed 1000 ms skew; corrections start at 0.
    let skew_a: i128 = 0;
    let skew_b: i128 = 1000;
    let mut off_a = initial_offset();
    let mut off_b = initial_offset();
    let mut gap_before = (skew_b + off_b) - (skew_a + off_a);
    assert_eq!(gap_before, 1000);

    for round in 0..12 {
        let t: i128 = 1_000_000 + 5_000 * round;
        let ts_from_b = (t + skew_b + off_b) as u128;
        let ts_from_a = (t + skew_a + off_a) as u128;
        let new_a = adjust_offset(off_a, t + skew_a, ts_from_b);
        let new_b = adjust_offset(off_b, t + skew_b, ts_from_a);
        off_a = new_a;
        off_b = new_b;

        // the sum of the two offsets stays at zero through every exchange
        assert_eq!(off_a + off_b, 0);
        let gap_now = (skew_b + off_b) - (skew_a + off_a);
        assert!(gap_now.abs() <= gap_before.abs());
        gap_before = gap_now;
    }
    // the adjusted clocks end within one millisecond of each other
    assert!(gap_before.abs() <= 1);
    // and each offset moved toward the other node's clock
    assert!(off_a > 0 && off_b < 0);
}
