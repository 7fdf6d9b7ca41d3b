use numancy::reduction::{
    debt_of, digit_sum, reduce, reduce_single, CABALISTIC_MASTERS, KARMIC_DEBTS, PYTHAGOREAN_MASTERS,
};

#[test]
fn digit_sum_adds_digits() {
    assert_eq!(digit_sum(0), 0);
    assert_eq!(digit_sum(28), 10);
    assert_eq!(digit_sum(499), 22);
    assert_eq!(digit_sum(999_999), 54);
}

#[test]
fn reduce_to_single_digit() {
    let cn = reduce_single(28);
    assert_eq!(cn.value, 1);
    assert_eq!(cn.steps, vec![28, 10, 1]);
    assert!(!cn.is_master);
}

#[test]
fn single_digit_input_is_left_untouched() {
    let cn = reduce_single(7);
    assert_eq!(cn.value, 7);
    assert_eq!(cn.steps, vec![7]);
    assert!(!cn.is_master);
}

#[test]
fn reduce_preserves_master_numbers() {
    // 499 -> 22 (cabalistic keeps 22).
    let cn = reduce(499, &CABALISTIC_MASTERS);
    assert_eq!(cn.value, 22);
    assert!(cn.is_master);

    // 38 -> 11 (both systems keep 11).
    let cn = reduce(38, &PYTHAGOREAN_MASTERS);
    assert_eq!(cn.value, 11);
    assert!(cn.is_master);

    // 33 is a master only in the Pythagorean system.
    assert_eq!(reduce(33, &PYTHAGOREAN_MASTERS).value, 33);
    assert_eq!(reduce(33, &CABALISTIC_MASTERS).value, 6);
}

#[test]
fn reduce_single_never_keeps_masters() {
    let cn = reduce_single(38);
    assert_eq!(cn.value, 2);
    assert!(!cn.is_master);
}

#[test]
fn detects_karmic_debt_in_trail() {
    for debt in [13u32, 14, 16, 19] {
        let cn = reduce(debt, &CABALISTIC_MASTERS);
        assert_eq!(debt_of(&cn), Some(debt), "debt {debt} should be detected");
        assert!(cn.passes_through(debt));
    }

    let clean = reduce(25, &PYTHAGOREAN_MASTERS);
    assert_eq!(debt_of(&clean), None);
    assert!(!clean.passes_through(16));
}

#[test]
fn reduce_keeps_the_raw_total_and_a_trail_of_digit_sums() {
    let cn = reduce(987_654_321, &PYTHAGOREAN_MASTERS);
    assert_eq!(cn.raw, 987_654_321);
    assert_eq!(cn.steps, vec![987_654_321, 45, 9]);
    assert_eq!(cn.value, 9);
}

#[test]
fn reduce_of_the_largest_u32() {
    // 4294967295 -> 4+2+9+4+9+6+7+2+9+5 = 57 -> 12 -> 3.
    let cn = reduce(u32::MAX, &CABALISTIC_MASTERS);
    assert_eq!(cn.steps, vec![u32::MAX, 57, 12, 3]);
    assert_eq!(digit_sum(u32::MAX), 57);
}

#[test]
fn reduce_of_zero_is_zero() {
    let cn = reduce_single(0);
    assert_eq!(cn.value, 0);
    assert_eq!(cn.steps, vec![0]);
}

#[test]
fn first_debt_wins_when_a_trail_passes_two() {
    // A hand-made trail that passes 19 and then 13 reports 19.
    let mut cn = reduce(7, &[]);
    cn.steps = vec![55, 19, 13, 4];
    assert_eq!(debt_of(&cn), Some(19));
    assert_eq!(KARMIC_DEBTS, [13, 14, 16, 19]);
}

#[test]
fn any_master_list_is_honoured() {
    // A custom master list stops on its own values.
    let cn = reduce(77, &[14]);
    assert_eq!(cn.value, 14);
    assert!(cn.is_master);
    assert_eq!(cn.steps, vec![77, 14]);
}
