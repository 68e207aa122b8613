use diceroll::DieRoll;
use diceroll::FixedSource;
use diceroll::Keep;
use diceroll::Outcome;
use diceroll::Roll;

#[test]
fn notation_of_bare_die() {
    let r = Roll::new(1, 20, None, None, None);
    assert_eq!(r.notation(), b"d20".to_vec());
}

#[test]
fn notation_writes_count_only_above_one() {
    assert_eq!(Roll::new(2, 6, None, None, None).notation(), b"2d6".to_vec());
    assert_eq!(Roll::new(1, 6, None, None, None).notation(), b"d6".to_vec());
    assert_eq!(Roll::new(0, 6, None, None, None).notation(), b"d6".to_vec());
}

#[test]
fn notation_writes_every_component() {
    let r = Roll::new(12, 8, Some(2), Some(Keep::Low(3)), Some(-17));
    assert_eq!(r.notation(), b"12d8r2l3-17".to_vec());
}

#[test]
fn notation_spells_positive_modifier_with_plus() {
    let r = Roll::new(3, 6, None, None, Some(2));
    assert_eq!(r.notation(), b"3d6+2".to_vec());
}

#[test]
fn notation_drops_zero_modifier() {
    let r = Roll::new(1, 6, None, None, Some(0));
    assert_eq!(r.notation(), b"d6".to_vec());
}

// Formatting a parsed roll writes back the token it was parsed from.
#[test]
fn round_trip_from_notation() {
    for token in ["d20", "3d6+2", "2d20h1", "4d6l3", "d6r2", "12d8r2h3-17"] {
        let r = Roll::from_str(token).unwrap();
        assert_eq!(r.notation(), token.as_bytes().to_vec());
        assert_eq!(Roll::from_bytes(&r.notation()), Ok(r));
    }
}

// Re-parsing a formatted roll normalizes the fields that the notation does
// not write: a count under one reads back as one, a zero modifier as absent.
#[test]
fn round_trip_normalizes_defaults() {
    let zero_count = Roll::new(0, 6, None, None, Some(0));
    assert_eq!(
        Roll::from_bytes(&zero_count.notation()),
        Ok(Roll::new(1, 6, None, None, None))
    );
}

#[test]
fn die_render_shows_reroll_as_arrow() {
    assert_eq!(DieRoll::Kept(5).render(), b"5".to_vec());
    assert_eq!(DieRoll::Rerolled(2, 5).render(), b"2=>5".to_vec());
}

#[test]
fn outcome_render_lists_dice_in_sorted_order() {
    let o = Outcome::new(
        vec![DieRoll::Kept(5), DieRoll::Kept(2), DieRoll::Kept(4)],
        None,
        0,
    );
    assert_eq!(o.render().unwrap(), b"11 (2, 4, 5)".to_vec());
}

#[test]
fn outcome_render_appends_positive_modifier() {
    let r = Roll::from_str("2d4+3").unwrap();
    let mut src = FixedSource::new(vec![1, 2]);
    let o = r.roll(&mut src);
    assert_eq!(o.render().unwrap(), b"6 (1, 2) + 3".to_vec());
}

#[test]
fn outcome_render_appends_negative_modifier() {
    let o = Outcome::new(vec![DieRoll::Kept(1)], None, -5);
    assert_eq!(o.render().unwrap(), b"-4 (1) - 5".to_vec());
}

#[test]
fn outcome_render_shows_rerolled_die() {
    let r = Roll::from_str("d6r2").unwrap();
    let mut src = FixedSource::new(vec![2, 5]);
    let o = r.roll(&mut src);
    assert_eq!(o.render().unwrap(), b"5 (2=>5)".to_vec());
}
