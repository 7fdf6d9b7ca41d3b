use numancy::pythagorean::{
    destiny_number, expression_number, hidden_passion_numbers, impression_number, karmic_lessons,
    motivation_number, personality_number, soul_urge_number, subconscious_self_number,
};
use numancy::NumerologyError;

#[test]
fn vowels_and_consonants_split() {
    // Grace Hopper (compiler pioneer): Expression 4, Soul Urge 8, Personality 5.
    assert_eq!(expression_number("Grace Hopper").unwrap().value, 4);
    assert_eq!(motivation_number("Grace Hopper").unwrap().value, 8);
    assert_eq!(impression_number("Grace Hopper").unwrap().value, 5);
}

#[test]
fn expression_can_be_a_master_number() {
    // Annie Easley (NASA): her Pythagorean Expression is the master number 11.
    let cn = expression_number("Annie Easley").unwrap();
    assert_eq!(cn.value, 11);
    assert!(cn.is_master);
}

#[test]
fn expression_can_carry_a_karmic_debt() {
    // Grace Hopper: letters total 49 -> 13 -> 4, passing through the debt 13.
    let cn = expression_number("Grace Hopper").unwrap();
    assert_eq!(cn.value, 4);
    assert!(cn.passes_through(13));
}

#[test]
fn aliases_match_their_primary_names() {
    assert_eq!(
        destiny_number("Grace Hopper").unwrap(),
        expression_number("Grace Hopper").unwrap()
    );
    assert_eq!(
        soul_urge_number("Grace Hopper").unwrap(),
        motivation_number("Grace Hopper").unwrap()
    );
    assert_eq!(
        personality_number("Grace Hopper").unwrap(),
        impression_number("Grace Hopper").unwrap()
    );
}

#[test]
fn hidden_passion_karmic_and_subconscious() {
    assert_eq!(hidden_passion_numbers("Grace Hopper").unwrap(), vec![7]);
    assert_eq!(karmic_lessons("Grace Hopper").unwrap(), vec![2, 4]);
    assert_eq!(subconscious_self_number("Grace Hopper").unwrap(), 7);
}

#[test]
fn accents_are_ignored_by_the_pythagorean_system() {
    // Karen Spärck Jones: the "ä" is treated as a plain "a".
    assert_eq!(
        expression_number("Karen Spärck Jones").unwrap(),
        expression_number("Karen Sparck Jones").unwrap()
    );
}

#[test]
fn pythagorean_empty_name_errors() {
    assert_eq!(expression_number("123"), Err(NumerologyError::EmptyName));
    assert_eq!(motivation_number("  "), Err(NumerologyError::EmptyName));
    assert_eq!(karmic_lessons("!!!"), Err(NumerologyError::EmptyName));
}

#[test]
fn grace_hopper_raw_totals() {
    // Letters total 67, vowels 17 (A1 E5 O6 E5), consonants 50.
    assert_eq!(expression_number("Grace Hopper").unwrap().raw, 67);
    assert_eq!(expression_number("Grace Hopper").unwrap().steps, vec![67, 13, 4]);
    assert_eq!(motivation_number("Grace Hopper").unwrap().raw, 17);
    assert_eq!(impression_number("Grace Hopper").unwrap().raw, 50);
    assert_eq!(hidden_passion_numbers("").unwrap_err(), NumerologyError::EmptyName);
    assert_eq!(subconscious_self_number("-").unwrap_err(), NumerologyError::EmptyName);
}
