use numancy::compatibility::{favorable_days, harmonic_numbers, relationship_harmony};

#[test]
fn number_seven_matches_reference_table() {
    let harmony = relationship_harmony(7).unwrap();
    assert_eq!(harmony.number, 7);
    assert_eq!(harmony.vibrates_with, vec![3]);
    assert_eq!(harmony.attracts, vec![2, 6]);
    assert_eq!(harmony.opposite_to, vec![1, 9]);
    assert_eq!(harmony.passive_with, vec![4, 5, 8]);

    assert_eq!(harmonic_numbers(7), Some(vec![2, 4, 5, 7]));
    assert_eq!(favorable_days(7), Some(vec![2, 7, 14, 16, 23, 25]));
}

#[test]
fn unknown_numbers_return_none() {
    for n in [0u8, 1, 2, 3, 4, 5, 6, 8, 9] {
        assert!(relationship_harmony(n).is_none(), "harmony {n}");
        assert!(harmonic_numbers(n).is_none(), "harmonic {n}");
        assert!(favorable_days(n).is_none(), "favorable {n}");
    }
}

#[test]
fn large_numbers_are_unknown_too() {
    for n in [11u8, 22, 77, 255] {
        assert!(relationship_harmony(n).is_none());
        assert!(harmonic_numbers(n).is_none());
        assert!(favorable_days(n).is_none());
    }
}
