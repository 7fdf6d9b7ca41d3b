//! Relationship harmony, harmonic numbers and favorable days.
//!
//! These are interpretive lookup tables rather than derived formulas. They are
//! seeded from a documented reference table for the number 7. Unknown numbers
//! return `None` instead of a guessed value.

use vstd::prelude::*;

verus! {

/// How a governing number relates to the other numbers in a relationship.
#[derive(Clone, Debug, PartialEq, Eq)]
pub struct RelationshipHarmony {
    /// The governing number.
    pub number: u8,
    /// Numbers with strong attraction/passion.
    pub vibrates_with: Vec<u8>,
    /// Most compatible numbers.
    pub attracts: Vec<u8>,
    /// Opposite numbers.
    pub opposite_to: Vec<u8>,
    /// Passive/friendship numbers.
    pub passive_with: Vec<u8>,
}

/// Relationship harmony for a governing number, if known (only 7 is).
pub fn relationship_harmony(number: u8) -> (r: Option<RelationshipHarmony>)
    ensures
        r is Some <==> number == 7,
        r matches Some(h) ==> {
            &&& h.number == 7
            &&& h.vibrates_with@ == seq![3u8]
            &&& h.attracts@ == seq![2u8, 6]
            &&& h.opposite_to@ == seq![1u8, 9]
            &&& h.passive_with@ == seq![4u8, 5, 8]
        },
{
    if number == 7 {
        let h = RelationshipHarmony {
            number: 7,
            vibrates_with: vec![3],
            attracts: vec![2, 6],
            opposite_to: vec![1, 9],
            passive_with: vec![4, 5, 8],
        };
        proof {
            assert(h.attracts@ =~= seq![2u8, 6]);
            assert(h.opposite_to@ =~= seq![1u8, 9]);
            assert(h.passive_with@ =~= seq![4u8, 5, 8]);
            assert(h.vibrates_with@ =~= seq![3u8]);
        }
        Some(h)
    } else {
        None
    }
}

/// Harmonic numbers for a birth/psychic number, if known (only 7 is).
pub fn harmonic_numbers(day_number: u8) -> (r: Option<Vec<u8>>)
    ensures
        r is Some <==> day_number == 7,
        r matches Some(v) ==> v@ == seq![2u8, 4, 5, 7],
{
    if day_number == 7 {
        let v = vec![2, 4, 5, 7];
        proof {
            assert(v@ =~= seq![2u8, 4, 5, 7]);
        }
        Some(v)
    } else {
        None
    }
}

/// Favorable days of the month for a birth/psychic number, if known (only 7 is).
pub fn favorable_days(day_number: u8) -> (r: Option<Vec<u8>>)
    ensures
        r is Some <==> day_number == 7,
        r matches Some(v) ==> v@ == seq![2u8, 7, 14, 16, 23, 25],
{
    if day_number == 7 {
        let v = vec![2, 7, 14, 16, 23, 25];
        proof {
            assert(v@ =~= seq![2u8, 7, 14, 16, 23, 25]);
        }
        Some(v)
    } else {
        None
    }
}

} // verus!
