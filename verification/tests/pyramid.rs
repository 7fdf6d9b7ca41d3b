use numancy::pyramid::{build, life_triangle, ArcaneCode, LifeTriangle};
use numancy::NumerologyError;

/// The dominant arcane at `age` over `life_span` years: the age is scaled to
/// an index in floating point, then clamped by the library.
fn dominant(triangle: &LifeTriangle, age: u32, life_span: u32) -> Option<ArcaneCode> {
    let raw = if triangle.arcana.is_empty() || life_span == 0 {
        0
    } else {
        let per = f64::from(life_span) / triangle.arcana.len() as f64;
        (f64::from(age) / per).floor() as usize
    };
    triangle.arcane_at(triangle.clamp_dominant_index(life_span, raw))
}

#[test]
fn arcane_code_packs_two_digits() {
    assert_eq!(ArcaneCode(3, 1).code(), 31);
    assert_eq!(ArcaneCode(7, 7).code(), 77);
}

#[test]
fn triangle_builds_from_letter_values() {
    // Barbara Liskov: 13 letters give 12 arcana from adjacent pairs.
    let triangle = life_triangle("Barbara Liskov").unwrap();
    assert_eq!(triangle.base, vec![2, 1, 2, 2, 1, 2, 1, 3, 1, 3, 2, 7, 6]);
    let codes: Vec<u8> = triangle.arcana.iter().map(|a| a.code()).collect();
    assert_eq!(codes, vec![21, 12, 22, 21, 12, 21, 13, 31, 13, 32, 27, 76]);
    assert_eq!(triangle.regent, 7);
}

#[test]
fn dominant_arcane_by_age() {
    let triangle = life_triangle("Barbara Liskov").unwrap();
    // 12 arcana over 90 years -> 7.5 each.
    assert_eq!(dominant(&triangle, 10, 90).map(ArcaneCode::code), Some(12));
    assert_eq!(dominant(&triangle, 30, 90).map(ArcaneCode::code), Some(12));
    assert_eq!(dominant(&triangle, 55, 90).map(ArcaneCode::code), Some(31));
    // Ages beyond the life span clamp to the last arcane.
    assert_eq!(dominant(&triangle, 200, 90).map(ArcaneCode::code), Some(76));
}

#[test]
fn dominant_is_none_for_zero_life_span() {
    let triangle = life_triangle("Barbara Liskov").unwrap();
    assert_eq!(dominant(&triangle, 30, 0), None);
}

#[test]
fn single_letter_name_has_no_triangle() {
    assert!(life_triangle("A").is_err());
}

#[test]
fn detects_repeated_sequences() {
    let triangle = build(vec![1, 1, 1, 2]).unwrap();
    assert_eq!(triangle.sequences.len(), 1);
    assert_eq!(triangle.sequences[0].digit, 1);
    assert_eq!(triangle.sequences[0].len, 3);
}

#[test]
fn no_sequences_without_a_run_of_three() {
    let triangle = build(vec![3, 7, 5, 3, 4]).unwrap();
    assert!(triangle.sequences.is_empty());
}

#[test]
fn rows_shrink_by_one_down_to_the_regent() {
    let triangle = build(vec![3, 7, 5, 3, 4]).unwrap();
    // 3+7=10->1, 7+5=12->3, 5+3=8, 3+4=7; then 4, 11->2, 15->6; then 6, 8; then 14->5.
    assert_eq!(
        triangle.rows,
        vec![vec![3, 7, 5, 3, 4], vec![1, 3, 8, 7], vec![4, 2, 6], vec![6, 8], vec![5]]
    );
    assert_eq!(triangle.regent, 5);
}

#[test]
fn sequences_are_found_in_every_row() {
    // Base 9 9 9 9: a run of four in the base; below it 9 9 9, then 9 9, then 9.
    let triangle = build(vec![9, 9, 9, 9]).unwrap();
    let found: Vec<(usize, usize, u8, usize)> =
        triangle.sequences.iter().map(|s| (s.row, s.start, s.digit, s.len)).collect();
    assert_eq!(found, vec![(0, 0, 9, 4), (1, 0, 9, 3)]);
}

#[test]
fn short_bases_are_refused() {
    assert_eq!(build(vec![]), Err(NumerologyError::EmptyName));
    assert_eq!(build(vec![4]), Err(NumerologyError::EmptyName));
    assert_eq!(build(vec![4, 5]).unwrap().regent, 9);
}

#[test]
fn dominant_index_clamps_and_refuses_empty_cases() {
    let triangle = build(vec![1, 2, 3]).unwrap();
    assert_eq!(triangle.clamp_dominant_index(90, 0), Some(0));
    assert_eq!(triangle.clamp_dominant_index(90, 7), Some(1));
    assert_eq!(triangle.clamp_dominant_index(0, 0), None);
    assert_eq!(triangle.arcane_at(Some(5)), None);
    assert_eq!(triangle.arcane_at(None), None);
}
