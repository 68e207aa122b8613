use diceroll::combined_total;
use diceroll::roll_all;
use diceroll::DieSource;
use diceroll::FixedSource;
use diceroll::MacroTable;
use diceroll::Roll;
use diceroll::ThreadSource;

fn tokens(ts: &[&str]) -> Vec<Vec<u8>> {
    ts.iter().map(|t| t.as_bytes().to_vec()).collect()
}

// The whole pipeline on a fixed source: one advantage-style roll plus the
// six ability scores of `stats`, and a combined total that is the sum of
// the seven individual totals.
#[test]
fn advantage_and_stats_end_to_end() {
    let table = MacroTable::builtin();
    let rolls = table.resolve(&tokens(&["2d20h1", "stats"])).unwrap();
    assert_eq!(rolls.len(), 7);

    // 2d20h1 draws two faces; each of the six 4d6h3 rolls draws four.
    let mut faces = vec![20, 5];
    for _ in 0..6 {
        faces.extend_from_slice(&[1, 2, 3, 4]);
    }
    let mut src = FixedSource::new(faces);
    let outcomes = roll_all(&rolls, &mut src);
    assert_eq!(outcomes.len(), 7);

    assert_eq!(outcomes[0].total(), 20);
    for o in &outcomes[1..] {
        assert_eq!(o.total(), 9);
    }

    let by_hand: i32 = outcomes.iter().map(|o| o.total()).sum();
    assert_eq!(by_hand, 74);
    assert_eq!(combined_total(&outcomes), Some(74));
}

#[test]
fn error_reporting_matches_the_batch_policy() {
    let table = MacroTable::builtin();
    // The bad token aborts the whole batch before anything is rolled.
    assert!(table.resolve(&tokens(&["2d20h1", "oops", "stats"])).is_err());
}

// A one-sided die pins the random source down completely.
#[test]
fn thread_source_on_one_sided_dice() {
    let r = Roll::from_str("10d1").unwrap();
    let mut src = ThreadSource::new();
    let o = r.roll(&mut src);
    assert_eq!(o.rolls().len(), 10);
    for d in o.rolls() {
        assert_eq!(d.value(), 1);
    }
    assert_eq!(o.total(), 10);
}

#[test]
fn thread_source_reroll_on_one_sided_die() {
    let r = Roll::from_str("d1r1").unwrap();
    let mut src = ThreadSource::new();
    let o = r.roll(&mut src);
    assert_eq!(o.render().unwrap(), b"1 (1=>1)".to_vec());
}

#[test]
fn thread_source_stays_in_range() {
    let mut src = ThreadSource::new();
    for _ in 0..100 {
        let v = src.draw(6);
        assert!((1..=6).contains(&v));
    }
}

// A generator that handed one constant face back would fail this with
// overwhelming probability.
#[test]
fn thread_source_varies() {
    let mut src = ThreadSource::new();
    let mut seen = [false; 6];
    for _ in 0..200 {
        let v = src.draw(6);
        seen[(v - 1) as usize] = true;
    }
    assert!(seen.iter().filter(|s| **s).count() >= 2);
}

#[test]
fn thread_source_roll_respects_bounds() {
    let r = Roll::from_str("5d8r3").unwrap();
    let mut src = ThreadSource::new();
    let o = r.roll(&mut src);
    for d in o.rolls() {
        assert!((1..=8).contains(&d.value()));
    }
    let t = o.total();
    assert!((5..=40).contains(&t));
}
