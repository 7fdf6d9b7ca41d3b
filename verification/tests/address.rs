use numancy::address::{address_sum, house_number};
use numancy::{NumerologyError, System};

#[test]
fn alphanumeric_address() {
    // 4 + 2 + B(2) = 8.
    assert_eq!(house_number("42B").unwrap().value, 8);
}

#[test]
fn pure_digits_reduce() {
    // 7 + 7 = 14 -> 5.
    assert_eq!(house_number("77").unwrap().value, 5);
    // 1 + 0 + 0 = 1.
    assert_eq!(house_number("100").unwrap().value, 1);
}

#[test]
fn punctuation_and_spaces_are_ignored() {
    // "Apt 42-B" -> 4 + 2 + B(2) = 8, same as "42B".
    assert_eq!(
        address_sum("Apt 42-B", System::Pythagorean),
        address_sum("42B", System::Pythagorean) + address_sum("APT", System::Pythagorean)
    );
    assert_eq!(house_number("42 B").unwrap().value, house_number("42B").unwrap().value);
}

#[test]
fn masters_are_preserved() {
    // Digits summing to 29 -> 11 (master).
    assert!(house_number("9992").unwrap().is_master);
}

#[test]
fn empty_address_errors() {
    assert_eq!(house_number("   "), Err(NumerologyError::EmptyAddress));
    assert_eq!(house_number("!!!"), Err(NumerologyError::EmptyAddress));
}

#[test]
fn zeros_alone_sum_to_nothing() {
    // Only zero digits: the sum is 0, which is reported as an empty address.
    assert_eq!(house_number("000"), Err(NumerologyError::EmptyAddress));
    assert_eq!(address_sum("", System::Cabalistic), 0);
}

#[test]
fn address_letters_follow_the_system() {
    // Cabalistic B is 2, Pythagorean F is 6, cabalistic F is 8; an accent counts in the cabalistic table.
    assert_eq!(address_sum("F", System::Pythagorean), 6);
    assert_eq!(address_sum("F", System::Cabalistic), 8);
    assert_eq!(address_sum("12ê", System::Cabalistic), 6);
    assert_eq!(address_sum("12ê", System::Pythagorean), 8);
    // Non-ASCII digits are not digits.
    assert_eq!(address_sum("\u{0663}", System::Pythagorean), 0);
}
