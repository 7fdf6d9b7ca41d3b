use numancy::chart::{CabalisticMap, PythagoreanChart};
use numancy::{BirthDate, NumerologyError};

#[test]
fn pythagorean_chart_builds() {
    // Ada Lovelace (1815-12-10), reference 2020-03-15.
    let birth = BirthDate::new(1815, 12, 10).unwrap();
    let reference = BirthDate::new(2020, 3, 15).unwrap();
    let chart = PythagoreanChart::new("Ada Lovelace", birth, reference, Some("77")).unwrap();

    assert_eq!(chart.expression.value, 9);
    assert_eq!(chart.soul_urge.value, 1);
    assert_eq!(chart.personality.value, 8);
    assert_eq!(chart.life_path.value, 1);
    assert_eq!(chart.birthday.value, 1);
    assert_eq!(chart.maturity.value, 1);
    assert_eq!(chart.personal_year.value, 8);
    assert_eq!(chart.universal_day.value, 4);
    assert_eq!(chart.house.unwrap().value, 5);

    // Life Path totals 19, so a karmic debt is recorded there.
    assert_eq!(chart.karmic_debts.len(), 1);
    assert_eq!(chart.karmic_debts[0].position, "life path");
    assert_eq!(chart.karmic_debts[0].debt, 19);
}

#[test]
fn pythagorean_chart_preserves_master_life_path() {
    // Dorothy Vaughan (1910-09-20): Life Path is the master number 22.
    let birth = BirthDate::new(1910, 9, 20).unwrap();
    let reference = BirthDate::new(2020, 3, 15).unwrap();
    let chart = PythagoreanChart::new("Dorothy Vaughan", birth, reference, None).unwrap();
    assert_eq!(chart.life_path.value, 22);
    assert!(chart.life_path.is_master);
    assert_eq!(chart.expression.value, 8);
}

#[test]
fn pythagorean_chart_without_address_has_no_house() {
    let birth = BirthDate::new(1906, 12, 9).unwrap();
    let reference = BirthDate::new(2020, 3, 15).unwrap();
    let chart = PythagoreanChart::new("Grace Hopper", birth, reference, None).unwrap();
    assert!(chart.house.is_none());
}

#[test]
fn cabalistic_map_builds_full_profile() {
    // Barbara Liskov (1939-11-07), reference 2020-03-15.
    let birth = BirthDate::new(1939, 11, 7).unwrap();
    let reference = BirthDate::new(2020, 3, 15).unwrap();
    let map = CabalisticMap::new("Barbara Liskov", birth, reference).unwrap();

    assert_eq!(map.motivation.value, 11);
    assert!(map.motivation.is_master);
    assert_eq!(map.impression.value, 4);
    assert_eq!(map.expression.value, 6);
    assert_eq!(map.hidden_talent.value, 5);
    assert_eq!(map.birth_day.value, 7);
    assert_eq!(map.psychic.value, 7);
    assert_eq!(map.destiny.value, 4);
    assert_eq!(map.mission.value, 1);
    assert_eq!(map.karmic_lessons, vec![4, 5, 8, 9]);
    assert_eq!(map.hidden_tendencies, vec![2]);
    assert_eq!(map.subconscious_response, 5);
    assert!(map.karmic_debts.is_empty());
    assert_eq!(
        [
            map.life_cycles[0].value,
            map.life_cycles[1].value,
            map.life_cycles[2].value
        ],
        [11, 7, 22]
    );
    assert_eq!(map.challenges, [5, 3, 2]);
    assert_eq!(map.decision_moments.map(|m| m.value), [9, 11, 11, 6]);
    assert_eq!(map.personal_year.value, 4);
    let arcana: Vec<u8> = map.life_triangle.arcana.iter().map(|a| a.code()).collect();
    assert_eq!(arcana, vec![21, 12, 22, 21, 12, 21, 13, 31, 13, 32, 27, 76]);
    assert_eq!(map.life_triangle.regent, 7);
}

#[test]
fn empty_name_fails_both_charts() {
    let birth = BirthDate::new(2000, 1, 1).unwrap();
    assert!(PythagoreanChart::new("123", birth, birth, None).is_err());
    assert!(CabalisticMap::new("123", birth, birth).is_err());
}

#[test]
fn chart_errors_name_the_missing_input() {
    let birth = BirthDate::new(2000, 1, 1).unwrap();
    // A name comes first; then an address summing to zero.
    assert_eq!(
        PythagoreanChart::new("123", birth, birth, Some("!!")).unwrap_err(),
        NumerologyError::EmptyName
    );
    assert_eq!(
        PythagoreanChart::new("Ada", birth, birth, Some("!!")).unwrap_err(),
        NumerologyError::EmptyAddress
    );
    // A one-letter name has no Life Triangle, so it has no cabalistic map.
    assert_eq!(CabalisticMap::new("A", birth, birth).unwrap_err(), NumerologyError::EmptyName);
    assert!(PythagoreanChart::new("A", birth, birth, None).is_ok());
}
