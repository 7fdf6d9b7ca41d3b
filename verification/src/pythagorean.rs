//! Pythagorean (Western) name-based calculations.

use vstd::prelude::*;

use crate::error::NumerologyError;
use crate::name::{
    digits_with_count, distinct_present, has_letters, missing_digits, most_frequent, most_frequent_of,
    name_consonants, name_frequency, name_total, name_vowels, present_upto, NameAnalysis, frequencies_fit,
};
use crate::reduction::{reduce, CalculatedNumber, PYTHAGOREAN_MASTERS};
use crate::System;

verus! {

/// The analysis of a name under the Pythagorean system.
fn analysis(name: &str) -> (r: Result<NameAnalysis, NumerologyError>)
    ensures
        r is Ok <==> has_letters(name@),
        r matches Ok(a) ==> a.wf() && a.system == System::Pythagorean && a.all_letters() == crate::name::letter_values(name@, System::Pythagorean),
        r matches Err(e) ==> e == NumerologyError::EmptyName,
{
    NameAnalysis::new(name, System::Pythagorean)
}

/// The frequency table of a well-formed analysis, as the name's frequency.
fn frequency(a: &NameAnalysis, name: Ghost<Seq<char>>) -> (f: [u32; 10])
    requires
        a.wf(),
        a.all_letters() == crate::name::letter_values(name@, a.system),
        frequencies_fit(name@, a.system),
    ensures
        f@ == name_frequency(name@, a.system),
{
    let f = a.digit_frequency();
    proof {
        assert(f@ =~= name_frequency(name@, a.system));
    }
    f
}

/// Expression (Destiny) number: reduction of all letters in the full name.
///
/// Fails with [`NumerologyError::EmptyName`] exactly when the name has no
/// usable letters.
pub fn expression_number(name: &str) -> (r: Result<CalculatedNumber, NumerologyError>)
    requires
        name_total(name@, System::Pythagorean) <= u32::MAX,
    ensures
        r is Ok <==> has_letters(name@),
        r matches Ok(cn) ==> cn.is_reduction_of(name_total(name@, System::Pythagorean) as u32, PYTHAGOREAN_MASTERS@),
        r matches Err(e) ==> e == NumerologyError::EmptyName,
{
    let a = analysis(name)?;
    Ok(reduce(a.total_sum(), &PYTHAGOREAN_MASTERS))
}

/// Alias for [`expression_number`].
pub fn destiny_number(name: &str) -> (r: Result<CalculatedNumber, NumerologyError>)
    requires
        name_total(name@, System::Pythagorean) <= u32::MAX,
    ensures
        r is Ok <==> has_letters(name@),
        r matches Ok(cn) ==> cn.is_reduction_of(name_total(name@, System::Pythagorean) as u32, PYTHAGOREAN_MASTERS@),
        r matches Err(e) ==> e == NumerologyError::EmptyName,
{
    expression_number(name)
}

/// Motivation (Soul Urge / Heart's Desire) number: reduction of the vowels.
pub fn motivation_number(name: &str) -> (r: Result<CalculatedNumber, NumerologyError>)
    requires
        name_vowels(name@, System::Pythagorean) <= u32::MAX,
    ensures
        r is Ok <==> has_letters(name@),
        r matches Ok(cn) ==> cn.is_reduction_of(name_vowels(name@, System::Pythagorean) as u32, PYTHAGOREAN_MASTERS@),
        r matches Err(e) ==> e == NumerologyError::EmptyName,
{
    let a = analysis(name)?;
    Ok(reduce(a.vowel_sum(), &PYTHAGOREAN_MASTERS))
}

/// Alias for [`motivation_number`].
pub fn soul_urge_number(name: &str) -> (r: Result<CalculatedNumber, NumerologyError>)
    requires
        name_vowels(name@, System::Pythagorean) <= u32::MAX,
    ensures
        r is Ok <==> has_letters(name@),
        r matches Ok(cn) ==> cn.is_reduction_of(name_vowels(name@, System::Pythagorean) as u32, PYTHAGOREAN_MASTERS@),
        r matches Err(e) ==> e == NumerologyError::EmptyName,
{
    motivation_number(name)
}

/// Impression (Personality) number: reduction of the consonants.
pub fn impression_number(name: &str) -> (r: Result<CalculatedNumber, NumerologyError>)
    requires
        name_consonants(name@, System::Pythagorean) <= u32::MAX,
    ensures
        r is Ok <==> has_letters(name@),
        r matches Ok(cn) ==> cn.is_reduction_of(name_consonants(name@, System::Pythagorean) as u32, PYTHAGOREAN_MASTERS@),
        r matches Err(e) ==> e == NumerologyError::EmptyName,
{
    let a = analysis(name)?;
    Ok(reduce(a.consonant_sum(), &PYTHAGOREAN_MASTERS))
}

/// Alias for [`impression_number`].
pub fn personality_number(name: &str) -> (r: Result<CalculatedNumber, NumerologyError>)
    requires
        name_consonants(name@, System::Pythagorean) <= u32::MAX,
    ensures
        r is Ok <==> has_letters(name@),
        r matches Ok(cn) ==> cn.is_reduction_of(name_consonants(name@, System::Pythagorean) as u32, PYTHAGOREAN_MASTERS@),
        r matches Err(e) ==> e == NumerologyError::EmptyName,
{
    impression_number(name)
}

/// Hidden Passion: the digit(s) that appear most often in the name.
pub fn hidden_passion_numbers(name: &str) -> (r: Result<Vec<u8>, NumerologyError>)
    requires
        frequencies_fit(name@, System::Pythagorean),
    ensures
        r is Ok <==> has_letters(name@),
        r matches Ok(v) ==> v@ == most_frequent_of(name_frequency(name@, System::Pythagorean)),
        r matches Err(e) ==> e == NumerologyError::EmptyName,
{
    let a = analysis(name)?;
    let f = frequency(&a, Ghost(name@));
    Ok(most_frequent(&f))
}

/// Karmic Lessons: digits `1..=9` absent from the name.
pub fn karmic_lessons(name: &str) -> (r: Result<Vec<u8>, NumerologyError>)
    requires
        frequencies_fit(name@, System::Pythagorean),
    ensures
        r is Ok <==> has_letters(name@),
        r matches Ok(v) ==> v@ == digits_with_count(name_frequency(name@, System::Pythagorean), 9, 0),
        r matches Err(e) ==> e == NumerologyError::EmptyName,
{
    let a = analysis(name)?;
    let f = frequency(&a, Ghost(name@));
    Ok(missing_digits(&f, 9))
}

/// Subconscious Self: count of distinct digits `1..=9` present in the name.
pub fn subconscious_self_number(name: &str) -> (r: Result<u32, NumerologyError>)
    requires
        frequencies_fit(name@, System::Pythagorean),
    ensures
        r is Ok <==> has_letters(name@),
        r matches Ok(n) ==> n == present_upto(name_frequency(name@, System::Pythagorean), 9),
        r matches Err(e) ==> e == NumerologyError::EmptyName,
{
    let a = analysis(name)?;
    let f = frequency(&a, Ghost(name@));
    Ok(distinct_present(&f))
}

} // verus!
