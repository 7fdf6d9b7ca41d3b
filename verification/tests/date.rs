use numancy::date::{
    birthday_number, life_path_number, maturity_number, personal_day, personal_month, personal_year,
    universal_day,
};
use numancy::reduction::{reduce, PYTHAGOREAN_MASTERS};
use numancy::{BirthDate, NumerologyError};

#[test]
fn rejects_invalid_dates() {
    assert!(BirthDate::new(2000, 13, 1).is_err());
    assert!(BirthDate::new(2000, 0, 1).is_err());
    assert!(BirthDate::new(2000, 2, 32).is_err());
    assert!(BirthDate::new(2000, 2, 0).is_err());
    assert!(BirthDate::new(0, 2, 1).is_err());
    assert!(BirthDate::new(2000, 1, 1).is_ok());
    assert!(BirthDate::new(2000, 12, 31).is_ok());
}

#[test]
fn digit_total_sums_the_whole_date() {
    // 2000-03-15 -> 2 + 3 + 6 = 11.
    assert_eq!(BirthDate::new(2000, 3, 15).unwrap().digit_total(), 11);
}

#[test]
fn life_path_known_example() {
    // March 15, 1990 -> 1.
    let cn = life_path_number(BirthDate::new(1990, 3, 15).unwrap());
    assert_eq!(cn.value, 1);
}

#[test]
fn life_path_can_carry_a_karmic_debt() {
    // Ada Lovelace (1815-12-10) totals 19, reducing to 1 through the debt 19.
    let cn = life_path_number(BirthDate::new(1815, 12, 10).unwrap());
    assert_eq!(cn.value, 1);
    assert!(cn.passes_through(19));
}

#[test]
fn life_path_preserves_masters() {
    // Dorothy Vaughan (1910-09-20) totals a master number 22.
    let cn = life_path_number(BirthDate::new(1910, 9, 20).unwrap());
    assert_eq!(cn.value, 22);
    assert!(cn.is_master);
}

#[test]
fn birthday_and_maturity() {
    // Dorothy Vaughan: Birthday from day 20 -> 2; Life Path 22.
    let birth = BirthDate::new(1910, 9, 20).unwrap();
    assert_eq!(birthday_number(birth).value, 2);
    let life_path = life_path_number(birth);
    let expression = reduce(7, &PYTHAGOREAN_MASTERS); // stand-in Expression 7.
    // 22 + 7 = 29 -> 11 (master).
    let maturity = maturity_number(&life_path, &expression);
    assert_eq!(maturity.value, 11);
    assert!(maturity.is_master);
}

#[test]
fn personal_year_known_example() {
    // Birth March 8, reference year 2026 -> 3.
    let birth = BirthDate::new(1990, 3, 8).unwrap();
    assert_eq!(personal_year(birth, 2026).value, 3);
}

#[test]
fn personal_month_and_day_chain_from_personal_year() {
    // Grace Hopper (1906-12-09), reference 2020-03-15.
    let birth = BirthDate::new(1906, 12, 9).unwrap();
    // Personal Year 2020 = 9 + 3 + 4 = 16 -> 7; + March (3) = 1; + day 15 (6) = 7.
    assert_eq!(personal_year(birth, 2020).value, 7);
    assert_eq!(personal_month(birth, 2020, 3).value, 1);
    assert_eq!(personal_day(birth, 2020, 3, 15).value, 7);
}

#[test]
fn universal_day_reduces_the_reference_date() {
    // 2020-03-15 -> 4 + 3 + 6 = 13 -> 4.
    assert_eq!(universal_day(BirthDate::new(2020, 3, 15).unwrap()).value, 4);
}

#[test]
fn invalid_date_error_carries_the_inputs() {
    assert_eq!(
        BirthDate::new(2000, 2, 32),
        Err(NumerologyError::InvalidDate {
            year: 2000,
            month: 2,
            day: 32
        })
    );
    let d = BirthDate::new(1, 1, 1).unwrap();
    assert_eq!((d.year, d.month, d.day), (1, 1, 1));
}

#[test]
fn personal_numbers_never_keep_masters() {
    // 29 -> 11 would be a master elsewhere; Pythagorean personal numbers reduce fully.
    let birth = BirthDate::new(2000, 9, 29).unwrap();
    // day 29 -> 11, month 9, year 2020 -> 4: 24 -> 6.
    let py = personal_year(birth, 2020);
    assert_eq!(py.raw, 24);
    assert_eq!(py.value, 6);
    assert!(!py.is_master);
}
