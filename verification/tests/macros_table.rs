use diceroll::Keep;
use diceroll::MacroTable;
use diceroll::ParseError;
use diceroll::Roll;

fn adv() -> Roll {
    Roll::new(2, 20, None, Some(Keep::High(1)), None)
}

fn dis() -> Roll {
    Roll::new(2, 20, None, Some(Keep::Low(1)), None)
}

fn stat() -> Roll {
    Roll::new(4, 6, None, Some(Keep::High(3)), None)
}

fn tokens(ts: &[&str]) -> Vec<Vec<u8>> {
    ts.iter().map(|t| t.as_bytes().to_vec()).collect()
}

#[test]
fn adv_expands_to_one_advantage_roll() {
    let t = MacroTable::builtin();
    assert_eq!(t.lookup(b"adv"), Some(vec![adv()]));
}

#[test]
fn dis_expands_to_one_disadvantage_roll() {
    let t = MacroTable::builtin();
    assert_eq!(t.lookup(b"dis"), Some(vec![dis()]));
}

#[test]
fn stats_expands_to_six_ability_scores() {
    let t = MacroTable::builtin();
    assert_eq!(t.lookup(b"stats"), Some(vec![stat(); 6]));
}

#[test]
fn unknown_name_is_not_found() {
    let t = MacroTable::builtin();
    assert_eq!(t.lookup(b"foo"), None);
    assert_eq!(t.lookup(b"ad"), None);
    assert_eq!(t.lookup(b"advx"), None);
}

#[test]
fn resolve_mixes_macros_and_notation() {
    let t = MacroTable::builtin();
    let rolls = t.resolve(&tokens(&["adv", "d4"])).unwrap();
    assert_eq!(rolls, vec![adv(), Roll::new(1, 4, None, None, None)]);
}

#[test]
fn resolve_of_stats_alone_yields_six_rolls() {
    let t = MacroTable::builtin();
    let rolls = t.resolve(&tokens(&["stats"])).unwrap();
    assert_eq!(rolls, vec![stat(); 6]);
}

#[test]
fn resolve_fails_fast_on_the_first_bad_token() {
    let t = MacroTable::builtin();
    assert_eq!(t.resolve(&tokens(&["d", "d6"])), Err(ParseError::MissingDie));
    assert_eq!(
        t.resolve(&tokens(&["d6", "nonsense"])),
        Err(ParseError::MalformedToken)
    );
}

#[test]
fn resolve_of_nothing_is_empty() {
    let t = MacroTable::builtin();
    assert_eq!(t.resolve(&tokens(&[])), Ok(vec![]));
}

#[test]
fn defined_macro_expands_like_a_builtin() {
    let mut t = MacroTable::builtin();
    t.define(b"two".to_vec(), &tokens(&["d6", "d6"])).unwrap();
    assert_eq!(
        t.lookup(b"two"),
        Some(vec![
            Roll::new(1, 6, None, None, None),
            Roll::new(1, 6, None, None, None)
        ])
    );
}

#[test]
fn macros_can_build_on_macros() {
    let mut t = MacroTable::builtin();
    t.define(b"two".to_vec(), &tokens(&["d6", "d6"])).unwrap();
    t.define(b"both".to_vec(), &tokens(&["two", "adv"])).unwrap();
    assert_eq!(
        t.lookup(b"both"),
        Some(vec![
            Roll::new(1, 6, None, None, None),
            Roll::new(1, 6, None, None, None),
            adv()
        ])
    );
}

#[test]
fn later_definition_shadows_earlier() {
    let mut t = MacroTable::builtin();
    t.define(b"adv".to_vec(), &tokens(&["d4"])).unwrap();
    assert_eq!(t.lookup(b"adv"), Some(vec![Roll::new(1, 4, None, None, None)]));
}

#[test]
fn bad_definition_leaves_table_unchanged() {
    let mut t = MacroTable::builtin();
    assert_eq!(
        t.define(b"bad".to_vec(), &tokens(&["q"])),
        Err(ParseError::MalformedToken)
    );
    assert_eq!(t.lookup(b"bad"), None);
    assert_eq!(t.lookup(b"adv"), Some(vec![adv()]));
}

#[test]
fn empty_table_only_parses() {
    let t = MacroTable::new();
    assert_eq!(t.lookup(b"adv"), None);
    assert_eq!(
        t.resolve(&tokens(&["adv"])),
        Err(ParseError::MalformedToken)
    );
}
