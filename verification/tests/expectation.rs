use diceroll::Roll;

fn as_f64(p: (i128, u128)) -> f64 {
    p.0 as f64 / p.1 as f64
}

#[test]
fn plain_d6_expects_three_and_a_half() {
    let r = Roll::from_str("d6").unwrap();
    let e = r.expected_total().unwrap();
    assert_eq!(e, (42, 12));
    assert_eq!(as_f64(e), 3.5);
}

#[test]
fn d6_reroll_two_expects_twenty_five_sixths() {
    // Faces 1 and 2 are rerolled, so they contribute the average 3.5 each:
    // (3.5 + 3.5 + 3 + 4 + 5 + 6) / 6 = 25/6.
    let r = Roll::from_str("d6r2").unwrap();
    let e = r.expected_total().unwrap();
    assert_eq!(e, (50, 12));
    assert!((as_f64(e) - 25.0 / 6.0).abs() < 1e-12);
}

#[test]
fn keep_count_multiplies_the_per_die_mean() {
    // The keep approximation prices 4d6h3 as three independent dice.
    let r = Roll::from_str("4d6h3").unwrap();
    let e = r.expected_total().unwrap();
    assert_eq!(e, (126, 12));
    assert_eq!(as_f64(e), 10.5);
}

#[test]
fn modifier_shifts_the_mean() {
    let r = Roll::from_str("2d6+3").unwrap();
    let e = r.expected_total().unwrap();
    assert_eq!(e, (120, 12));
    assert_eq!(as_f64(e), 10.0);
}

#[test]
fn negative_modifier_shifts_down() {
    let r = Roll::from_str("d20-4").unwrap();
    let e = r.expected_total().unwrap();
    assert_eq!(e, (21 * 20 - 4 * 40, 40));
    assert_eq!(as_f64(e), 6.5);
}

#[test]
fn threshold_at_or_above_die_means_plain_average() {
    // Every face is replaced by a fresh draw, so the mean is unchanged.
    let r = Roll::from_str("d6r6").unwrap();
    let e = r.expected_total().unwrap();
    assert_eq!(as_f64(e), 3.5);
}

#[test]
fn zero_sided_die_has_no_mean() {
    let r = Roll::from_str("d0").unwrap();
    assert_eq!(r.expected_total(), None);
}

#[test]
fn keep_count_of_zero_means_zero() {
    let r = Roll::from_str("4d6h0").unwrap();
    let e = r.expected_total().unwrap();
    assert_eq!(e.0, 0);
}
