use numancy::cabalistic::{
    birth_day_number, destiny_number, expression_number, hidden_talent_number, hidden_tendencies,
    impression_number, karmic_debts, karmic_lessons, mission_number, motivation_number, personal_day,
    personal_month, personal_year, psychic_number, subconscious_response,
};
use numancy::{BirthDate, NumerologyError};

// Fixture: Barbara Liskov (Turing Award), born 1939-11-07.
const NAME: &str = "Barbara Liskov";
fn birth() -> BirthDate {
    BirthDate::new(1939, 11, 7).unwrap()
}

#[test]
fn name_numbers() {
    // Vowels total 11 (master), consonants 22 -> 4, all letters 33 -> 6.
    let motivation = motivation_number(NAME).unwrap();
    assert_eq!(motivation.value, 11);
    assert!(motivation.is_master);
    assert_eq!(impression_number(NAME).unwrap().value, 4);
    assert_eq!(expression_number(NAME).unwrap().value, 6);
    assert_eq!(hidden_talent_number(NAME).unwrap().value, 5);
}

#[test]
fn date_numbers() {
    // 1939-11-07: digit total 22 + 2 + 7 = 31 -> 4.
    assert_eq!(destiny_number(birth()).value, 4);
    assert_eq!(birth_day_number(birth()).value, 7);
    assert_eq!(psychic_number(birth()).value, 7);
    // Mission = Expression(6) + Destiny(4) = 10 -> 1.
    assert_eq!(mission_number(NAME, birth()).unwrap().value, 1);
}

#[test]
fn impression_never_keeps_masters() {
    // Impression always reduces to a single digit (no master preservation),
    // even though Barbara Liskov's consonants sum to the master-looking 22.
    let cn = impression_number(NAME).unwrap();
    assert_eq!(cn.value, 4);
    assert!(!cn.is_master);
}

#[test]
fn karmic_and_tendency() {
    assert_eq!(karmic_lessons(NAME).unwrap(), vec![4, 5, 8, 9]);
    assert_eq!(hidden_tendencies(NAME).unwrap(), vec![2]);
    assert_eq!(subconscious_response(NAME).unwrap(), 5);
}

#[test]
fn digit_nine_is_always_a_karmic_lesson() {
    // The cabalistic table only reaches 8, so 9 can never appear as a value.
    assert!(karmic_lessons("Grace Hopper").unwrap().contains(&9));
}

#[test]
fn karmic_debt_detected_on_expression() {
    // Grace Hopper: her name totals 49 -> 13 (a karmic debt) -> 4.
    let debts = karmic_debts("Grace Hopper", BirthDate::new(1906, 12, 9).unwrap()).unwrap();
    assert_eq!(debts.len(), 1);
    assert_eq!(debts[0].position, "expression");
    assert_eq!(debts[0].debt, 13);
}

#[test]
fn clean_name_has_no_karmic_debts() {
    assert!(karmic_debts(NAME, birth()).unwrap().is_empty());
}

#[test]
fn personal_cycles_preserve_masters() {
    // Barbara Liskov's Personal Year for 2020 = day(7) + month(2) + year(4) = 13 -> 4.
    assert_eq!(personal_year(birth(), 2020).value, 4);
    // Katherine Johnson (1918-08-26): her Personal Day on 2020-03-15 is a master 11.
    let katherine = BirthDate::new(1918, 8, 26).unwrap();
    let day = personal_day(katherine, 2020, 3, 15);
    assert_eq!(day.value, 11);
    assert!(day.is_master);
}

#[test]
fn cabalistic_empty_name_errors() {
    assert_eq!(expression_number("123"), Err(NumerologyError::EmptyName));
}

#[test]
fn accented_o_removes_nine_from_the_lessons() {
    // "Jó": J(1) and ó = O(7) + acute(2) = 9, so 9 is no lesson here.
    assert!(!karmic_lessons("Jó").unwrap().contains(&9));
    assert_eq!(karmic_lessons("Jo").unwrap(), vec![2, 3, 4, 5, 6, 8, 9]);
}

#[test]
fn personal_month_chains_from_the_year() {
    // Katherine Johnson: year 2020 -> 8 + 8 + 4 = 20 -> 2; March -> 5; day 15 -> 11.
    let katherine = BirthDate::new(1918, 8, 26).unwrap();
    assert_eq!(personal_year(katherine, 2020).value, 2);
    assert_eq!(personal_month(katherine, 2020, 3).value, 5);
    assert_eq!(personal_month(katherine, 2020, 3).raw, 5);
}

#[test]
fn debts_on_several_positions_keep_position_order() {
    // Born on the 19th: the birthday reduction passes through 19.
    let debts = karmic_debts("Grace Hopper", BirthDate::new(1906, 12, 19).unwrap()).unwrap();
    let positions: Vec<&str> = debts.iter().map(|d| d.position).collect();
    assert_eq!(positions.first(), Some(&"expression"));
    assert_eq!(positions.last(), Some(&"birthday"));
    assert_eq!(debts.last().unwrap().debt, 19);
}
