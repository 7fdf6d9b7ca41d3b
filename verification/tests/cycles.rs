use numancy::cycles::{challenges, decision_moments, life_cycles};
use numancy::BirthDate;

// Fixture: Barbara Liskov, born 1939-11-07.
fn birth() -> BirthDate {
    BirthDate::new(1939, 11, 7).unwrap()
}

#[test]
fn life_cycles_reduce_month_day_year() {
    // Month 11 -> 11 (master), day 7 -> 7, year 1939 -> 22 (master).
    let cycles = life_cycles(birth());
    assert_eq!([cycles[0].value, cycles[1].value, cycles[2].value], [11, 7, 22]);
    assert!(cycles[0].is_master);
    assert!(!cycles[1].is_master);
    assert!(cycles[2].is_master);
}

#[test]
fn challenges_are_absolute_differences() {
    // m=2 d=7 y=4 -> |2-7|=5, |7-4|=3, |5-3|=2.
    assert_eq!(challenges(birth()), [5, 3, 2]);
}

#[test]
fn challenge_of_zero_is_valid() {
    // Katherine Johnson (1918-08-26): reduced month and day are equal, so the
    // first challenge is zero.
    let katherine = BirthDate::new(1918, 8, 26).unwrap();
    assert_eq!(challenges(katherine), [0, 7, 7]);
}

#[test]
fn decision_moments_preserve_masters() {
    // m=2 d=7 y=4 -> 9, 11, 11, 6.
    let moments = decision_moments(birth());
    let values = [moments[0].value, moments[1].value, moments[2].value, moments[3].value];
    assert_eq!(values, [9, 11, 11, 6]);
    assert!(!moments[0].is_master);
    assert!(moments[1].is_master);
    assert!(moments[2].is_master);
    assert!(!moments[3].is_master);
}

#[test]
fn third_decision_moment_reduces_the_first_two_fully() {
    // Katherine Johnson: m=8 d=8 y=1 -> 16 -> 7, 9, 7 + 9 = 16 -> 7, 9.
    let katherine = BirthDate::new(1918, 8, 26).unwrap();
    let moments = decision_moments(katherine);
    assert_eq!(moments[0].steps, vec![16, 7]);
    assert_eq!(moments.map(|m| m.value), [7, 9, 7, 9]);
}
