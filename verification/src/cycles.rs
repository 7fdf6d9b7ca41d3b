//! Life cycles, challenges and decision moments (cabalistic timeline).
//!
//! These are computed from the reduced month, day and year. Life cycles and
//! decision moments preserve master numbers; challenges always reduce to a
//! single digit (they are differences, so `0` is a valid result).

use vstd::prelude::*;

use crate::date::{valid_date, BirthDate};
use crate::reduction::{
    digital_root, law_digital_root_closed_form, lemma_reduced_bounds, reduce, reduce_single, reduced_value,
    CalculatedNumber, CABALISTIC_MASTERS,
};

verus! {

/// The distance between two numbers.
pub open spec fn distance(a: u32, b: u32) -> u32 {
    if a >= b {
        (a - b) as u32
    } else {
        (b - a) as u32
    }
}

/// The three challenges of a birth date, from the digital roots of its month,
/// day and year.
pub open spec fn challenges_of(birth: BirthDate) -> Seq<u32> {
    let m = digital_root(birth.month);
    let d = digital_root(birth.day);
    let y = digital_root(birth.year);
    seq![distance(m, d), distance(d, y), distance(distance(m, d), distance(d, y))]
}

/// Raw totals of the four decision moments: month + day, day + year, the
/// digital roots of the first two moments, and month + year (all from the
/// digital roots of the birth date's parts).
pub open spec fn decision_totals(birth: BirthDate) -> Seq<u32> {
    let m = digital_root(birth.month);
    let d = digital_root(birth.day);
    let y = digital_root(birth.year);
    let m1 = reduced_value((m + d) as u32, CABALISTIC_MASTERS@);
    let m2 = reduced_value((d + y) as u32, CABALISTIC_MASTERS@);
    seq![(m + d) as u32, (d + y) as u32, (digital_root(m1) + digital_root(m2)) as u32, (m + y) as u32]
}

/// The absolute difference of two numbers.
fn abs_diff(a: u32, b: u32) -> (r: u32)
    ensures
        r == distance(a, b),
{
    if a >= b {
        a - b
    } else {
        b - a
    }
}

/// The three Life Cycles: reduced month, day and year (masters preserved).
pub fn life_cycles(birth: BirthDate) -> (c: [CalculatedNumber; 3])
    ensures
        c@[0].is_reduction_of(birth.month, CABALISTIC_MASTERS@),
        c@[1].is_reduction_of(birth.day, CABALISTIC_MASTERS@),
        c@[2].is_reduction_of(birth.year, CABALISTIC_MASTERS@),
{
    [
        reduce(birth.month, &CABALISTIC_MASTERS),
        reduce(birth.day, &CABALISTIC_MASTERS),
        reduce(birth.year, &CABALISTIC_MASTERS),
    ]
}

/// The three Challenges: `|m-d|`, `|d-y|`, and `|c1-c2|` (single digits).
pub fn challenges(birth: BirthDate) -> (c: [u32; 3])
    ensures
        c@ == challenges_of(birth),
{
    let m = reduce_single(birth.month).value;
    let d = reduce_single(birth.day).value;
    let y = reduce_single(birth.year).value;
    let c1 = abs_diff(m, d);
    let c2 = abs_diff(d, y);
    let c3 = abs_diff(c1, c2);
    let c = [c1, c2, c3];
    proof {
        assert(c@ =~= challenges_of(birth));
    }
    c
}

/// The four Decision Moments (pinnacles), preserving master numbers.
pub fn decision_moments(birth: BirthDate) -> (moments: [CalculatedNumber; 4])
    ensures
        forall|i: int| 0 <= i < 4 ==> #[trigger] moments@[i].is_reduction_of(decision_totals(birth)[i], CABALISTIC_MASTERS@),
{
    let m = reduce_single(birth.month).value;
    let d = reduce_single(birth.day).value;
    let y = reduce_single(birth.year).value;
    proof {
        lemma_reduced_bounds(birth.month);
        lemma_reduced_bounds(birth.day);
        lemma_reduced_bounds(birth.year);
    }
    let m1 = reduce(m + d, &CABALISTIC_MASTERS);
    let m2 = reduce(d + y, &CABALISTIC_MASTERS);
    proof {
        lemma_reduced_bounds(m1.value);
        lemma_reduced_bounds(m2.value);
    }
    let m3 = reduce(reduce_single(m1.value).value + reduce_single(m2.value).value, &CABALISTIC_MASTERS);
    let m4 = reduce(m + y, &CABALISTIC_MASTERS);
    let moments = [m1, m2, m3, m4];
    proof {
        assert forall|i: int| 0 <= i < 4 implies #[trigger] moments@[i].is_reduction_of(
            decision_totals(birth)[i],
            CABALISTIC_MASTERS@,
        ) by {
            if i == 0 {
            } else if i == 1 {
            } else if i == 2 {
            } else {
            }
        }
    }
    moments
}

/// For a valid birth date every challenge is a digit from 0 to 8: the
/// reduced month, day and year are all between 1 and 9.
pub proof fn law_challenges_are_small(birth: BirthDate)
    requires
        valid_date(birth.year, birth.month, birth.day),
    ensures
        forall|i: int| 0 <= i < 3 ==> #[trigger] challenges_of(birth)[i] <= 8,
{
    law_digital_root_closed_form(birth.month);
    law_digital_root_closed_form(birth.day);
    law_digital_root_closed_form(birth.year);
}

/// The challenges of a valid birth date: with `m`, `d` and `y` the single
/// digits the month, day and year reduce to (`1 + (n - 1) % 9`), the first
/// challenge is the gap between `m` and `d`, the second the gap between `d`
/// and `y`, and the third the gap between the first two challenges.
pub proof fn law_challenges_are_gaps(birth: BirthDate)
    requires
        valid_date(birth.year, birth.month, birth.day),
    ensures
        ({
            let m = 1 + (birth.month - 1) % 9;
            let d = 1 + (birth.day - 1) % 9;
            let y = 1 + (birth.year - 1) % 9;
            let c = challenges_of(birth);
            &&& c.len() == 3
            &&& c[0] == m - d || c[0] == d - m
            &&& c[1] == d - y || c[1] == y - d
            &&& c[2] == c[0] - c[1] || c[2] == c[1] - c[0]
        }),
{
    law_digital_root_closed_form(birth.month);
    law_digital_root_closed_form(birth.day);
    law_digital_root_closed_form(birth.year);
}

} // verus!
