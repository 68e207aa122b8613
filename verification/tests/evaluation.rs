use diceroll::combined_total;
use diceroll::roll_all;
use diceroll::DieRoll;
use diceroll::DieSource;
use diceroll::FixedSource;
use diceroll::Keep;
use diceroll::Outcome;
use diceroll::Roll;

#[test]
fn keep_high_three_of_four() {
    let r = Roll::from_str("4d6h3").unwrap();
    let mut src = FixedSource::new(vec![2, 4, 5, 6]);
    let o = r.roll(&mut src);
    assert_eq!(
        o.rolls().clone(),
        vec![
            DieRoll::Kept(2),
            DieRoll::Kept(4),
            DieRoll::Kept(5),
            DieRoll::Kept(6)
        ]
    );
    assert_eq!(o.total(), 15);
    assert_eq!(o.total_checked(), Some(15));
}

#[test]
fn keep_low_keeps_the_bottom() {
    let r = Roll::from_str("4d6l2").unwrap();
    let mut src = FixedSource::new(vec![6, 1, 5, 3]);
    let o = r.roll(&mut src);
    assert_eq!(o.total(), 4);
}

#[test]
fn dice_are_sorted_ascending() {
    let r = Roll::from_str("3d6").unwrap();
    let mut src = FixedSource::new(vec![5, 1, 3]);
    let o = r.roll(&mut src);
    assert_eq!(
        o.rolls().clone(),
        vec![DieRoll::Kept(1), DieRoll::Kept(3), DieRoll::Kept(5)]
    );
}

#[test]
fn reroll_records_original_and_replacement() {
    let r = Roll::from_str("d6r2").unwrap();
    let mut src = FixedSource::new(vec![2, 5]);
    let o = r.roll(&mut src);
    assert_eq!(o.rolls().clone(), vec![DieRoll::Rerolled(2, 5)]);
    assert_eq!(o.total(), 5);
}

// A replacement at or under the threshold is not rerolled again: had the
// evaluator chained, it would have drawn the 6 as a third value.
#[test]
fn reroll_happens_exactly_once() {
    let r = Roll::from_str("d6r6").unwrap();
    let mut src = FixedSource::new(vec![1, 1, 6]);
    let o = r.roll(&mut src);
    assert_eq!(o.rolls().clone(), vec![DieRoll::Rerolled(1, 1)]);
    assert_eq!(o.total(), 1);
}

#[test]
fn face_above_threshold_is_kept() {
    let r = Roll::from_str("d6r2").unwrap();
    let mut src = FixedSource::new(vec![3]);
    let o = r.roll(&mut src);
    assert_eq!(o.rolls().clone(), vec![DieRoll::Kept(3)]);
    assert_eq!(o.total(), 3);
}

// A keep count past the pool size keeps the whole pool.
#[test]
fn keep_count_beyond_pool_keeps_all() {
    let high = Roll::from_str("2d6h5").unwrap();
    let mut src = FixedSource::new(vec![3, 4]);
    assert_eq!(high.roll(&mut src).total(), 7);

    let low = Roll::from_str("2d6l5").unwrap();
    let mut src = FixedSource::new(vec![3, 4]);
    assert_eq!(low.roll(&mut src).total(), 7);
}

#[test]
fn outcome_sorts_by_effective_value() {
    let o = Outcome::new(vec![DieRoll::Rerolled(6, 1), DieRoll::Kept(3)], None, 0);
    assert_eq!(
        o.rolls().clone(),
        vec![DieRoll::Rerolled(6, 1), DieRoll::Kept(3)]
    );
    assert_eq!(o.total(), 4);
}

#[test]
fn die_value_uses_the_replacement() {
    assert_eq!(DieRoll::Kept(4).value(), 4);
    assert_eq!(DieRoll::Rerolled(6, 1).value(), 1);
}

#[test]
fn total_adds_modifier_after_keep() {
    let o = Outcome::new(
        vec![DieRoll::Kept(2), DieRoll::Kept(4), DieRoll::Kept(5), DieRoll::Kept(6)],
        Some(Keep::High(3)),
        7,
    );
    assert_eq!(o.total(), 22);
}

#[test]
fn total_can_be_negative() {
    let o = Outcome::new(vec![DieRoll::Kept(1)], None, -10);
    assert_eq!(o.total(), -9);
    assert_eq!(o.total_checked(), Some(-9));
}

#[test]
fn fixed_source_clamps_out_of_range_faces() {
    let r = Roll::from_str("2d6").unwrap();
    let mut src = FixedSource::new(vec![99, 0]);
    let o = r.roll(&mut src);
    assert_eq!(
        o.rolls().clone(),
        vec![DieRoll::Kept(1), DieRoll::Kept(1)]
    );
}

#[test]
fn fixed_source_runs_out_gracefully() {
    let r = Roll::from_str("3d6").unwrap();
    let mut src = FixedSource::new(vec![4]);
    let o = r.roll(&mut src);
    assert_eq!(o.total(), 6);
}

#[test]
fn fixed_source_draw_stays_in_range() {
    let mut src = FixedSource::new(vec![3, 9, 0]);
    assert_eq!(src.draw(6), 3);
    assert_eq!(src.draw(6), 1);
    assert_eq!(src.draw(6), 1);
}

#[test]
fn roll_all_evaluates_in_order() {
    let rolls = vec![
        Roll::from_str("d6").unwrap(),
        Roll::from_str("2d4").unwrap(),
    ];
    let mut src = FixedSource::new(vec![5, 1, 2]);
    let outs = roll_all(&rolls, &mut src);
    assert_eq!(outs.len(), 2);
    assert_eq!(outs[0].total(), 5);
    assert_eq!(outs[1].total(), 3);
}

#[test]
fn combined_total_sums_every_outcome() {
    let rolls = vec![
        Roll::from_str("d6").unwrap(),
        Roll::from_str("2d4+1").unwrap(),
        Roll::from_str("d8-2").unwrap(),
    ];
    let mut src = FixedSource::new(vec![5, 1, 2, 7]);
    let outs = roll_all(&rolls, &mut src);
    let by_hand: i32 = outs.iter().map(|o| o.total()).sum();
    assert_eq!(combined_total(&outs), Some(by_hand));
    assert_eq!(combined_total(&outs), Some(14));
}

#[test]
fn combined_total_of_nothing_is_zero() {
    assert_eq!(combined_total(&vec![]), Some(0));
}
