//! Brazilian cabalistic numerology calculations.
//!
//! Names use the `1..8` cabalistic table (see [`crate::alphabet`]); master
//! numbers `11` and `22` are preserved.

use vstd::prelude::*;

use crate::alphabet::{decode_of, law_decoded_values_in_range};
use crate::date::{date_total, digits, lemma_date_digits_small, BirthDate};
use crate::error::NumerologyError;
use crate::name::{
    count_value, digits_with_count, distinct_present, lemma_digits_with_count_members, has_letters, letter_values, missing_digits, most_frequent,
    most_frequent_of, name_consonants, name_frequency, name_initials, name_total, name_tokens, name_vowels,
    present_upto, frequencies_fit, lemma_name_sums_fit, NameAnalysis,
};
use crate::reduction::{
    debt_entry, debt_views, digit_sum, lemma_digit_sum_of_u32, lemma_reduced_bounds, record_debt, reduce,
    reduced_value, reduction_steps, CalculatedNumber, KarmicDebt, CABALISTIC_MASTERS, KARMIC_DEBTS, first_debt,
};
use crate::System;

verus! {

/// The analysis of a name under the cabalistic system.
fn analysis(name: &str) -> (r: Result<NameAnalysis, NumerologyError>)
    ensures
        r is Ok <==> has_letters(name@),
        r matches Ok(a) ==> {
            &&& a.wf()
            &&& a.system == System::Cabalistic
            &&& a.all_letters() == letter_values(name@, System::Cabalistic)
            &&& a.words() == name_tokens(name@, System::Cabalistic)
        },
        r matches Err(e) ==> e == NumerologyError::EmptyName,
{
    NameAnalysis::new(name, System::Cabalistic)
}

/// The frequency table of a well-formed cabalistic analysis of `name`.
fn frequency(a: &NameAnalysis, name: Ghost<Seq<char>>) -> (f: [u32; 10])
    requires
        a.wf(),
        a.all_letters() == letter_values(name@, a.system),
        frequencies_fit(name@, a.system),
    ensures
        f@ == name_frequency(name@, a.system),
{
    let f = a.digit_frequency();
    proof {
        assert(f@ =~= name_frequency(name@, a.system));
    }
    f
}

/// Value of the cabalistic expression number of a name.
pub open spec fn expression_value(name: Seq<char>) -> u32 {
    reduced_value(name_total(name, System::Cabalistic) as u32, CABALISTIC_MASTERS@)
}

/// Value of the cabalistic destiny number of a birth date.
pub open spec fn destiny_value(birth: BirthDate) -> u32 {
    reduced_value(date_total(birth), CABALISTIC_MASTERS@)
}

/// Raw total of the mission number: expression plus destiny.
pub open spec fn mission_total(name: Seq<char>, birth: BirthDate) -> u32 {
    (expression_value(name) + destiny_value(birth)) as u32
}

/// Motivation number: reduction of the vowels (inner self / soul).
///
/// Fails with [`NumerologyError::EmptyName`] exactly when the name has no
/// usable letters.
pub fn motivation_number(name: &str) -> (r: Result<CalculatedNumber, NumerologyError>)
    requires
        name_vowels(name@, System::Cabalistic) <= u32::MAX,
    ensures
        r is Ok <==> has_letters(name@),
        r matches Ok(cn) ==> cn.is_reduction_of(name_vowels(name@, System::Cabalistic) as u32, CABALISTIC_MASTERS@),
        r matches Err(e) ==> e == NumerologyError::EmptyName,
{
    let a = analysis(name)?;
    Ok(reduce(a.vowel_sum(), &CABALISTIC_MASTERS))
}

/// Impression number: reduction of the consonants (ego / outer image).
///
/// Impression is always reduced to a single digit (no master numbers).
pub fn impression_number(name: &str) -> (r: Result<CalculatedNumber, NumerologyError>)
    requires
        name_consonants(name@, System::Cabalistic) <= u32::MAX,
    ensures
        r is Ok <==> has_letters(name@),
        r matches Ok(cn) ==> cn.is_reduction_of(name_consonants(name@, System::Cabalistic) as u32, Seq::empty()),
        r matches Ok(cn) ==> !cn.is_master && cn.value <= 9,
        r matches Err(e) ==> e == NumerologyError::EmptyName,
{
    let a = analysis(name)?;
    let none: [u32; 0] = [];
    let cn = reduce(a.consonant_sum(), &none);
    proof {
        assert(none@ =~= Seq::<u32>::empty());
        lemma_reduced_bounds(name_consonants(name@, System::Cabalistic) as u32);
    }
    Ok(cn)
}

/// Expression number: reduction of every letter of the name.
pub fn expression_number(name: &str) -> (r: Result<CalculatedNumber, NumerologyError>)
    requires
        name_total(name@, System::Cabalistic) <= u32::MAX,
    ensures
        r is Ok <==> has_letters(name@),
        r matches Ok(cn) ==> cn.is_reduction_of(name_total(name@, System::Cabalistic) as u32, CABALISTIC_MASTERS@),
        r matches Err(e) ==> e == NumerologyError::EmptyName,
{
    let a = analysis(name)?;
    Ok(reduce(a.total_sum(), &CABALISTIC_MASTERS))
}

/// Hidden Talent number: reduction of the first letter of each name part.
pub fn hidden_talent_number(name: &str) -> (r: Result<CalculatedNumber, NumerologyError>)
    requires
        name_initials(name@, System::Cabalistic) <= u32::MAX,
    ensures
        r is Ok <==> has_letters(name@),
        r matches Ok(cn) ==> cn.is_reduction_of(name_initials(name@, System::Cabalistic) as u32, CABALISTIC_MASTERS@),
        r matches Err(e) ==> e == NumerologyError::EmptyName,
{
    let a = analysis(name)?;
    Ok(reduce(a.initials_sum(), &CABALISTIC_MASTERS))
}

/// Destiny number: reduction of the full birth date.
pub fn destiny_number(birth: BirthDate) -> (cn: CalculatedNumber)
    ensures
        cn.is_reduction_of(date_total(birth), CABALISTIC_MASTERS@),
{
    reduce(birth.digit_total(), &CABALISTIC_MASTERS)
}

/// Birthday number: the day of birth, reduced.
pub fn birth_day_number(birth: BirthDate) -> (cn: CalculatedNumber)
    ensures
        cn.is_reduction_of(birth.day, CABALISTIC_MASTERS@),
{
    reduce(birth.day, &CABALISTIC_MASTERS)
}

/// Psychic number: the reduced day of birth (self-perception); always equal
/// to the birthday number.
pub fn psychic_number(birth: BirthDate) -> (cn: CalculatedNumber)
    ensures
        cn.is_reduction_of(birth.day, CABALISTIC_MASTERS@),
{
    reduce(birth.day, &CABALISTIC_MASTERS)
}

/// Mission number: reduction of Expression + Destiny.
pub fn mission_number(name: &str, birth: BirthDate) -> (r: Result<CalculatedNumber, NumerologyError>)
    requires
        name_total(name@, System::Cabalistic) <= u32::MAX,
    ensures
        r is Ok <==> has_letters(name@),
        r matches Ok(cn) ==> cn.is_reduction_of(mission_total(name@, birth), CABALISTIC_MASTERS@),
        r matches Err(e) ==> e == NumerologyError::EmptyName,
{
    let expression = expression_number(name)?;
    let destiny = destiny_number(birth);
    proof {
        lemma_reduced_bounds(name_total(name@, System::Cabalistic) as u32);
        lemma_reduced_bounds(date_total(birth));
    }
    Ok(reduce(expression.value + destiny.value, &CABALISTIC_MASTERS))
}

/// Karmic Lessons: digits `1..=9` absent from the name. Because the plain
/// cabalistic table only reaches `8`, digit `9` is reported as a lesson unless
/// an accented letter is worth 9.
pub fn karmic_lessons(name: &str) -> (r: Result<Vec<u8>, NumerologyError>)
    requires
        frequencies_fit(name@, System::Cabalistic),
    ensures
        r is Ok <==> has_letters(name@),
        r matches Ok(v) ==> v@ == digits_with_count(name_frequency(name@, System::Cabalistic), 9, 0),
        r matches Err(e) ==> e == NumerologyError::EmptyName,
{
    let a = analysis(name)?;
    let f = frequency(&a, Ghost(name@));
    Ok(missing_digits(&f, 9))
}

/// Hidden Tendencies: the digit(s) that appear most often in the name.
pub fn hidden_tendencies(name: &str) -> (r: Result<Vec<u8>, NumerologyError>)
    requires
        frequencies_fit(name@, System::Cabalistic),
    ensures
        r is Ok <==> has_letters(name@),
        r matches Ok(v) ==> v@ == most_frequent_of(name_frequency(name@, System::Cabalistic)),
        r matches Err(e) ==> e == NumerologyError::EmptyName,
{
    let a = analysis(name)?;
    let f = frequency(&a, Ghost(name@));
    Ok(most_frequent(&f))
}

/// Subconscious Response: count of distinct digits present in the name.
pub fn subconscious_response(name: &str) -> (r: Result<u32, NumerologyError>)
    requires
        frequencies_fit(name@, System::Cabalistic),
    ensures
        r is Ok <==> has_letters(name@),
        r matches Ok(n) ==> n == present_upto(name_frequency(name@, System::Cabalistic), 9),
        r matches Err(e) ==> e == NumerologyError::EmptyName,
{
    let a = analysis(name)?;
    let f = frequency(&a, Ghost(name@));
    Ok(distinct_present(&f))
}

/// The karmic debts of a cabalistic map, position by position: motivation,
/// impression, expression, destiny, mission and birthday, each listed with
/// the first debt its reduction passes through.
pub open spec fn cabalistic_debts(name: Seq<char>, birth: BirthDate) -> Seq<(Seq<char>, u32)> {
    debt_entry("motivation"@, reduction_steps(name_vowels(name, System::Cabalistic) as u32, CABALISTIC_MASTERS@))
        + debt_entry("impression"@, reduction_steps(name_consonants(name, System::Cabalistic) as u32, Seq::empty()))
        + debt_entry("expression"@, reduction_steps(name_total(name, System::Cabalistic) as u32, CABALISTIC_MASTERS@))
        + debt_entry("destiny"@, reduction_steps(date_total(birth), CABALISTIC_MASTERS@))
        + debt_entry("mission"@, reduction_steps(mission_total(name, birth), CABALISTIC_MASTERS@))
        + debt_entry("birthday"@, reduction_steps(birth.day, CABALISTIC_MASTERS@))
}

/// Karmic Debts: compound numbers 13/14/16/19 found while reducing core
/// positions (motivation, impression, expression, destiny, mission, birthday).
pub fn karmic_debts(name: &str, birth: BirthDate) -> (r: Result<Vec<KarmicDebt>, NumerologyError>)
    requires
        name_total(name@, System::Cabalistic) <= u32::MAX,
    ensures
        r is Ok <==> has_letters(name@),
        r matches Ok(v) ==> debt_views(v@) == cabalistic_debts(name@, birth),
        r matches Err(e) ==> e == NumerologyError::EmptyName,
{
    proof {
        lemma_name_sums_fit(name@, System::Cabalistic);
    }
    let motivation = motivation_number(name)?;
    let impression = impression_number(name)?;
    let expression = expression_number(name)?;
    let destiny = destiny_number(birth);
    let mission = mission_number(name, birth)?;
    let birthday = birth_day_number(birth);
    let mut debts: Vec<KarmicDebt> = Vec::new();
    record_debt(&mut debts, "motivation", &motivation);
    record_debt(&mut debts, "impression", &impression);
    record_debt(&mut debts, "expression", &expression);
    record_debt(&mut debts, "destiny", &destiny);
    record_debt(&mut debts, "mission", &mission);
    record_debt(&mut debts, "birthday", &birthday);
    proof {
        assert(debt_views(Seq::<KarmicDebt>::empty()) =~= Seq::empty());
        assert(debt_views(debts@) =~= cabalistic_debts(name@, birth));
    }
    Ok(debts)
}


/// No letter of `name` decodes to an accented letter.
pub open spec fn has_no_accents(name: Seq<char>) -> bool {
    forall|i: int| 0 <= i < name.len() ==> (#[trigger] decode_of(name[i]) matches Some(d) ==> d.accent is None)
}

/// Without accented letters no cabalistic letter is worth 9.
proof fn lemma_no_nines_without_accents(name: Seq<char>)
    requires
        has_no_accents(name),
    ensures
        count_value(letter_values(name, System::Cabalistic), 9) == 0,
    decreases name.len(),
{
    if name.len() > 0 {
        let prev = name.drop_last();
        assert(has_no_accents(prev)) by {
            assert forall|i: int| 0 <= i < prev.len() implies (#[trigger] decode_of(prev[i]) matches Some(d)
                ==> d.accent is None) by {
                assert(prev[i] == name[i]);
            }
        }
        lemma_no_nines_without_accents(prev);
        let c = name.last();
        assert(c == name[name.len() - 1]);
        assert(decode_of(name[name.len() - 1]) matches Some(d) ==> d.accent is None);
        if let Some(d) = decode_of(c) {
            law_decoded_values_in_range(c);
            let rest = letter_values(prev, System::Cabalistic);
            let l = crate::name::letter_of(c, d, System::Cabalistic);
            assert(letter_values(name, System::Cabalistic) == rest.push(l));
            assert(rest.push(l).drop_last() =~= rest);
            assert(l.value != 9);
        }
    }
}

/// Digit 9 is a cabalistic karmic lesson of every name without accented
/// letters: the plain table only reaches 8. (An accented letter can be worth
/// 9, as an O with an acute accent is: 7 + 2.)
pub proof fn law_nine_is_a_lesson_without_accents(name: Seq<char>)
    requires
        has_no_accents(name),
    ensures
        digits_with_count(name_frequency(name, System::Cabalistic), 9, 0).contains(9),
{
    lemma_no_nines_without_accents(name);
    lemma_digits_with_count_members(name_frequency(name, System::Cabalistic), 9, 0);
    assert(name_frequency(name, System::Cabalistic)[9] == 0);
}

/// Raw total of a cabalistic personal year.
pub open spec fn personal_year_total(birth: BirthDate, year: u32) -> u32 {
    (digits(birth.day) + digits(birth.month) + digits(year)) as u32
}

/// Value of the cabalistic personal year.
pub open spec fn personal_year_value(birth: BirthDate, year: u32) -> u32 {
    reduced_value(personal_year_total(birth, year), CABALISTIC_MASTERS@)
}

/// Value of the cabalistic personal month.
pub open spec fn personal_month_value(birth: BirthDate, year: u32, month: u32) -> u32 {
    reduced_value((personal_year_value(birth, year) + digits(month)) as u32, CABALISTIC_MASTERS@)
}

/// Personal Year: birth day + birth month + reference year (masters preserved).
pub fn personal_year(birth: BirthDate, year: u32) -> (cn: CalculatedNumber)
    ensures
        cn.is_reduction_of(personal_year_total(birth, year), CABALISTIC_MASTERS@),
        cn.value == personal_year_value(birth, year),
{
    proof {
        lemma_date_digits_small(birth.day, birth.month, year);
    }
    reduce(digit_sum(birth.day) + digit_sum(birth.month) + digit_sum(year), &CABALISTIC_MASTERS)
}

/// Personal Month: Personal Year + calendar month (masters preserved).
pub fn personal_month(birth: BirthDate, year: u32, month: u32) -> (cn: CalculatedNumber)
    ensures
        cn.is_reduction_of((personal_year_value(birth, year) + digits(month)) as u32, CABALISTIC_MASTERS@),
        cn.value == personal_month_value(birth, year, month),
{
    let py = personal_year(birth, year);
    proof {
        lemma_reduced_bounds(personal_year_total(birth, year));
        lemma_digit_sum_of_u32(month);
    }
    reduce(py.value + digit_sum(month), &CABALISTIC_MASTERS)
}

/// Personal Day: Personal Month + calendar day (masters preserved).
pub fn personal_day(birth: BirthDate, year: u32, month: u32, day: u32) -> (cn: CalculatedNumber)
    ensures
        cn.is_reduction_of((personal_month_value(birth, year, month) + digits(day)) as u32, CABALISTIC_MASTERS@),
{
    let pm = personal_month(birth, year, month);
    proof {
        lemma_reduced_bounds((personal_year_value(birth, year) + digits(month)) as u32);
        lemma_digit_sum_of_u32(day);
    }
    reduce(pm.value + digit_sum(day), &CABALISTIC_MASTERS)
}

/// Whether `n` is one of the compound numbers 13, 14, 16 and 19 that mark a
/// karmic debt.
pub open spec fn is_debt_number(n: u32) -> bool {
    n == 13 || n == 14 || n == 16 || n == 19
}

/// A list of debts reports the position `label` faithfully for the
/// reduction trail `steps`: it lists the position exactly when the trail
/// passes through a debt number, and only with a debt number of that trail.
pub open spec fn reports_position(debts: Seq<(Seq<char>, u32)>, label: Seq<char>, steps: Seq<u32>) -> bool {
    &&& (exists|i: int| 0 <= i < steps.len() && is_debt_number(#[trigger] steps[i])) <==> (exists|d: u32|
        #[trigger] debts.contains((label, d)))
    &&& forall|d: u32| #[trigger] debts.contains((label, d)) ==> steps.contains(d) && is_debt_number(d)
}

proof fn lemma_contains_concat(a: Seq<(Seq<char>, u32)>, b: Seq<(Seq<char>, u32)>, x: (Seq<char>, u32))
    ensures
        (a + b).contains(x) <==> a.contains(x) || b.contains(x),
{
    if a.contains(x) {
        let k = choose|k: int| 0 <= k < a.len() && a[k] == x;
        assert((a + b)[k] == x);
    }
    if b.contains(x) {
        let k = choose|k: int| 0 <= k < b.len() && b[k] == x;
        assert((a + b)[a.len() + k] == x);
    }
    if (a + b).contains(x) {
        let k = choose|k: int| 0 <= k < (a + b).len() && (a + b)[k] == x;
        if k < a.len() {
            assert(a[k] == x);
        } else {
            assert(b[k - a.len()] == x);
        }
    }
}

proof fn lemma_entry_contains(label: Seq<char>, steps: Seq<u32>, x: (Seq<char>, u32))
    ensures
        debt_entry(label, steps).contains(x) <==> x.0 == label && first_debt(steps) == Some(x.1),
{
    if first_debt(steps) is Some {
        assert(debt_entry(label, steps)[0] == (label, first_debt(steps)->0));
    }
}

proof fn lemma_position_report(debts: Seq<(Seq<char>, u32)>, label: Seq<char>, steps: Seq<u32>)
    requires
        forall|d: u32| #[trigger] debts.contains((label, d)) <==> first_debt(steps) == Some(d),
    ensures
        reports_position(debts, label, steps),
{
    crate::reduction::law_first_debt_is_a_visited_debt(steps);
    assert(KARMIC_DEBTS@ =~= seq![13u32, 14, 16, 19]);
    assert forall|n: u32| crate::reduction::is_karmic_debt(n) <==> is_debt_number(n) by {
        if is_debt_number(n) {
            if n == 13 { assert(KARMIC_DEBTS@[0] == n); }
            if n == 14 { assert(KARMIC_DEBTS@[1] == n); }
            if n == 16 { assert(KARMIC_DEBTS@[2] == n); }
            if n == 19 { assert(KARMIC_DEBTS@[3] == n); }
        }
    }
    if exists|i: int| 0 <= i < steps.len() && is_debt_number(#[trigger] steps[i]) {
        let i = choose|i: int| 0 <= i < steps.len() && is_debt_number(#[trigger] steps[i]);
        assert(crate::reduction::is_karmic_debt(steps[i]));
        let d = first_debt(steps)->0;
        assert(debts.contains((label, d)));
    }
    if exists|d: u32| #[trigger] debts.contains((label, d)) {
        let d = choose|d: u32| #[trigger] debts.contains((label, d));
        let k = choose|k: int| 0 <= k < steps.len() && steps[k] == d;
        assert(is_debt_number(steps[k]));
    }
}

/// Every one of the six core positions is checked for karmic debts: for
/// motivation, impression, expression, destiny, mission and birthday, the
/// debts list the position exactly when the position's reduction trail
/// passes through 13, 14, 16 or 19, and then with a debt of that trail.
/// Impression reduces with no master kept, the others keep 11 and 22.
pub proof fn law_every_core_position_is_checked(name: Seq<char>, birth: BirthDate)
    ensures
        ({
            let debts = cabalistic_debts(name, birth);
            let masters = seq![11u32, 22];
            let sys = System::Cabalistic;
            &&& reports_position(debts, "motivation"@, reduction_steps(name_vowels(name, sys) as u32, masters))
            &&& reports_position(debts, "impression"@, reduction_steps(name_consonants(name, sys) as u32, Seq::empty()))
            &&& reports_position(debts, "expression"@, reduction_steps(name_total(name, sys) as u32, masters))
            &&& reports_position(debts, "destiny"@, reduction_steps(date_total(birth), masters))
            &&& reports_position(debts, "mission"@, reduction_steps(mission_total(name, birth), masters))
            &&& reports_position(debts, "birthday"@, reduction_steps(birth.day, masters))
        }),
{
    reveal_strlit("motivation");
    reveal_strlit("impression");
    reveal_strlit("expression");
    reveal_strlit("destiny");
    reveal_strlit("mission");
    reveal_strlit("birthday");
    assert(CABALISTIC_MASTERS@ =~= seq![11u32, 22]);
    let labels = seq!["motivation"@, "impression"@, "expression"@, "destiny"@, "mission"@, "birthday"@];
    let c = CABALISTIC_MASTERS@;
    let sys = System::Cabalistic;
    let trails = seq![
        reduction_steps(name_vowels(name, sys) as u32, c),
        reduction_steps(name_consonants(name, sys) as u32, Seq::empty()),
        reduction_steps(name_total(name, sys) as u32, c),
        reduction_steps(date_total(birth), c),
        reduction_steps(mission_total(name, birth), c),
        reduction_steps(birth.day, c),
    ];
    assert(labels[0][0] == 'm' && labels[0][1] == 'o');
    assert(labels[1][0] == 'i');
    assert(labels[2][0] == 'e');
    assert(labels[3][0] == 'd');
    assert(labels[4][0] == 'm' && labels[4][1] == 'i');
    assert(labels[5][0] == 'b');
    let e0 = debt_entry(labels[0], trails[0]);
    let e1 = debt_entry(labels[1], trails[1]);
    let e2 = debt_entry(labels[2], trails[2]);
    let e3 = debt_entry(labels[3], trails[3]);
    let e4 = debt_entry(labels[4], trails[4]);
    let e5 = debt_entry(labels[5], trails[5]);
    let debts = cabalistic_debts(name, birth);
    assert(debts == e0 + e1 + e2 + e3 + e4 + e5);
    assert forall|j: int, d: u32| 0 <= j < 6 implies #[trigger] debts.contains((labels[j], d)) <==> first_debt(
        trails[j],
    ) == Some(d) by {
        let x = (labels[j], d);
        lemma_contains_concat(e0 + e1 + e2 + e3 + e4, e5, x);
        lemma_contains_concat(e0 + e1 + e2 + e3, e4, x);
        lemma_contains_concat(e0 + e1 + e2, e3, x);
        lemma_contains_concat(e0 + e1, e2, x);
        lemma_contains_concat(e0, e1, x);
        lemma_entry_contains(labels[0], trails[0], x);
        lemma_entry_contains(labels[1], trails[1], x);
        lemma_entry_contains(labels[2], trails[2], x);
        lemma_entry_contains(labels[3], trails[3], x);
        lemma_entry_contains(labels[4], trails[4], x);
        lemma_entry_contains(labels[5], trails[5], x);
    }
    assert forall|j: int| 0 <= j < 6 implies reports_position(debts, #[trigger] labels[j], trails[j]) by {
        assert forall|d: u32| #[trigger] debts.contains((labels[j], d)) <==> first_debt(trails[j]) == Some(d) by {
            assert(debts.contains((labels[j], d)) <==> first_debt(trails[j]) == Some(d));
        }
        lemma_position_report(debts, labels[j], trails[j]);
    }
    assert(reports_position(debts, labels[0], trails[0]));
    assert(reports_position(debts, labels[1], trails[1]));
    assert(reports_position(debts, labels[2], trails[2]));
    assert(reports_position(debts, labels[3], trails[3]));
    assert(reports_position(debts, labels[4], trails[4]));
    assert(reports_position(debts, labels[5], trails[5]));
}

} // verus!
