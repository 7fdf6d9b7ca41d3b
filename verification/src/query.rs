//! Picking a single number by system and name, and reading the dates that
//! such a query is given as text (`YYYY-MM-DD`).

use vstd::prelude::*;

use crate::cabalistic::{self, mission_total};
use crate::chart::{life_path_value, pythagorean_expression_value, CabalisticMap, PythagoreanChart};
use crate::date::{self, date_total, digits, valid_date, BirthDate, ReferenceDate};
use crate::error::NumerologyError;
use crate::name::{has_letters, name_consonants, name_initials, name_total, name_vowels};
use crate::reduction::{lemma_reduced_bounds, CalculatedNumber, CABALISTIC_MASTERS, PYTHAGOREAN_MASTERS};
use crate::{pythagorean, System};

verus! {

/// The numbers a query can ask for. Availability depends on the system.
#[derive(Clone, Copy, Debug, PartialEq, Eq, Structural)]
pub enum Number {
    /// Expression number.
    Expression,
    /// Motivation (soul urge) number.
    Motivation,
    /// Impression (personality) number.
    Impression,
    /// Life path number.
    LifePath,
    /// Birthday number.
    Birthday,
    /// Maturity number.
    Maturity,
    /// Personal year.
    PersonalYear,
    /// Personal month.
    PersonalMonth,
    /// Personal day.
    PersonalDay,
    /// Universal day.
    UniversalDay,
    /// Hidden talent number.
    HiddenTalent,
    /// Psychic number.
    Psychic,
    /// Destiny number.
    Destiny,
    /// Mission number.
    Mission,
}

/// The command-line label of a system.
pub open spec fn system_label(system: System) -> Seq<char> {
    match system {
        System::Pythagorean => "pythagorean"@,
        System::Cabalistic => "cabalistic"@,
    }
}

/// The command-line label of a number.
pub open spec fn number_label(number: Number) -> Seq<char> {
    match number {
        Number::Expression => "expression"@,
        Number::Motivation => "motivation"@,
        Number::Impression => "impression"@,
        Number::LifePath => "life-path"@,
        Number::Birthday => "birthday"@,
        Number::Maturity => "maturity"@,
        Number::PersonalYear => "personal-year"@,
        Number::PersonalMonth => "personal-month"@,
        Number::PersonalDay => "personal-day"@,
        Number::UniversalDay => "universal-day"@,
        Number::HiddenTalent => "hidden-talent"@,
        Number::Psychic => "psychic"@,
        Number::Destiny => "destiny"@,
        Number::Mission => "mission"@,
    }
}

impl System {
    /// The command-line label of the system.
    pub fn as_str(self) -> (s: &'static str)
        ensures
            s@ == system_label(self),
    {
        match self {
            System::Pythagorean => "pythagorean",
            System::Cabalistic => "cabalistic",
        }
    }
}

impl Number {
    /// The command-line label of the number.
    pub fn as_str(self) -> (s: &'static str)
        ensures
            s@ == number_label(self),
    {
        match self {
            Number::Expression => "expression",
            Number::Motivation => "motivation",
            Number::Impression => "impression",
            Number::LifePath => "life-path",
            Number::Birthday => "birthday",
            Number::Maturity => "maturity",
            Number::PersonalYear => "personal-year",
            Number::PersonalMonth => "personal-month",
            Number::PersonalDay => "personal-day",
            Number::UniversalDay => "universal-day",
            Number::HiddenTalent => "hidden-talent",
            Number::Psychic => "psychic",
            Number::Destiny => "destiny",
            Number::Mission => "mission",
        }
    }
}

/// Whether a number of a system is computed from the name (and so fails on a
/// name without letters).
pub open spec fn uses_name(system: System, number: Number) -> bool {
    match system {
        System::Pythagorean => match number {
            Number::Expression | Number::Motivation | Number::Impression | Number::Maturity => true,
            _ => false,
        },
        System::Cabalistic => match number {
            Number::Motivation | Number::Impression | Number::Expression | Number::HiddenTalent | Number::Mission => true,
            _ => false,
        },
    }
}

/// Whether the letter sums that a query adds up fit in a `u32`.
pub open spec fn name_sums_fit_for(system: System, number: Number, name: Seq<char>) -> bool {
    match number {
        Number::Expression | Number::Mission => name_total(name, system) <= u32::MAX,
        Number::Maturity => system is Pythagorean ==> name_total(name, system) <= u32::MAX,
        Number::Motivation => name_vowels(name, system) <= u32::MAX,
        Number::Impression => name_consonants(name, system) <= u32::MAX,
        Number::HiddenTalent => system is Cabalistic ==> name_initials(name, system) <= u32::MAX,
        _ => true,
    }
}

/// What a query reduces: the raw total and the master numbers kept, or
/// nothing when the number is not defined for the system.
pub open spec fn query_target(
    system: System,
    number: Number,
    name: Seq<char>,
    birth: BirthDate,
    reference: BirthDate,
) -> Option<(u32, Seq<u32>)> {
    let p = PYTHAGOREAN_MASTERS@;
    let c = CABALISTIC_MASTERS@;
    let none = Seq::<u32>::empty();
    match system {
        System::Pythagorean => match number {
            Number::Expression => Some((name_total(name, system) as u32, p)),
            Number::Motivation => Some((name_vowels(name, system) as u32, p)),
            Number::Impression => Some((name_consonants(name, system) as u32, p)),
            Number::LifePath => Some((date_total(birth), p)),
            Number::Birthday => Some((birth.day, p)),
            Number::Maturity => Some(((life_path_value(birth) + pythagorean_expression_value(name)) as u32, p)),
            Number::PersonalYear => Some((date::personal_year_total(birth, reference.year), none)),
            Number::PersonalMonth => Some(
                ((date::personal_year_value(birth, reference.year) + digits(reference.month)) as u32, none),
            ),
            Number::PersonalDay => Some(
                (
                    (date::personal_month_value(birth, reference.year, reference.month) + digits(reference.day)) as u32,
                    none,
                ),
            ),
            Number::UniversalDay => Some((date_total(reference), none)),
            _ => None,
        },
        System::Cabalistic => match number {
            Number::Motivation => Some((name_vowels(name, system) as u32, c)),
            Number::Impression => Some((name_consonants(name, system) as u32, none)),
            Number::Expression => Some((name_total(name, system) as u32, c)),
            Number::HiddenTalent => Some((name_initials(name, system) as u32, c)),
            Number::Birthday => Some((birth.day, c)),
            Number::Psychic => Some((birth.day, c)),
            Number::Destiny => Some((date_total(birth), c)),
            Number::Mission => Some((mission_total(name, birth), c)),
            Number::PersonalYear => Some((cabalistic::personal_year_total(birth, reference.year), c)),
            Number::PersonalMonth => Some(
                ((cabalistic::personal_year_value(birth, reference.year) + digits(reference.month)) as u32, c),
            ),
            Number::PersonalDay => Some(
                (
                    (cabalistic::personal_month_value(birth, reference.year, reference.month) + digits(
                        reference.day,
                    )) as u32,
                    c,
                ),
            ),
            _ => None,
        },
    }
}

/// Compute the requested number, or `None` if it is not defined for the system.
///
/// Fails with [`NumerologyError::EmptyName`] exactly when the number is
/// computed from the name and the name has no usable letters.
pub fn compute(
    system: System,
    number: Number,
    name: &str,
    birth: BirthDate,
    reference: ReferenceDate,
) -> (r: Result<Option<CalculatedNumber>, NumerologyError>)
    requires
        name_sums_fit_for(system, number, name@),
    ensures
        r is Err <==> uses_name(system, number) && !has_letters(name@),
        r matches Err(e) ==> e == NumerologyError::EmptyName,
        r matches Ok(v) ==> (v is Some <==> query_target(system, number, name@, birth, reference) is Some),
        r matches Ok(Some(cn)) ==> match query_target(system, number, name@, birth, reference) {
            Some((raw, masters)) => cn.is_reduction_of(raw, masters),
            None => false,
        },
{
    let value = match system {
        System::Pythagorean => match number {
            Number::Expression => Some(pythagorean::expression_number(name)?),
            Number::Motivation => Some(pythagorean::motivation_number(name)?),
            Number::Impression => Some(pythagorean::impression_number(name)?),
            Number::LifePath => Some(date::life_path_number(birth)),
            Number::Birthday => Some(date::birthday_number(birth)),
            Number::Maturity => {
                let life_path = date::life_path_number(birth);
                let expression = pythagorean::expression_number(name)?;
                proof {
                    lemma_reduced_bounds(date_total(birth));
                    lemma_reduced_bounds(name_total(name@, System::Pythagorean) as u32);
                }
                Some(date::maturity_number(&life_path, &expression))
            },
            Number::PersonalYear => Some(date::personal_year(birth, reference.year)),
            Number::PersonalMonth => Some(date::personal_month(birth, reference.year, reference.month)),
            Number::PersonalDay => Some(date::personal_day(birth, reference.year, reference.month, reference.day)),
            Number::UniversalDay => Some(date::universal_day(reference)),
            _ => None,
        },
        System::Cabalistic => match number {
            Number::Motivation => Some(cabalistic::motivation_number(name)?),
            Number::Impression => Some(cabalistic::impression_number(name)?),
            Number::Expression => Some(cabalistic::expression_number(name)?),
            Number::HiddenTalent => Some(cabalistic::hidden_talent_number(name)?),
            Number::Birthday => Some(cabalistic::birth_day_number(birth)),
            Number::Psychic => Some(cabalistic::psychic_number(birth)),
            Number::Destiny => Some(cabalistic::destiny_number(birth)),
            Number::Mission => Some(cabalistic::mission_number(name, birth)?),
            Number::PersonalYear => Some(cabalistic::personal_year(birth, reference.year)),
            Number::PersonalMonth => Some(cabalistic::personal_month(birth, reference.year, reference.month)),
            Number::PersonalDay => Some(
                cabalistic::personal_day(birth, reference.year, reference.month, reference.day),
            ),
            _ => None,
        },
    };
    Ok(value)
}

/// Why a decimal number could not be read.
#[derive(Clone, Copy, Debug, PartialEq, Eq, Structural)]
pub enum NumberError {
    /// The text is empty.
    Empty,
    /// A character is not a decimal digit (or a lone sign was given).
    InvalidDigit,
    /// The value does not fit in a `u32`.
    Overflow,
}

/// Why a date could not be read from text.
#[derive(Clone, Debug, PartialEq, Eq, Structural)]
pub enum DateTextError {
    /// The text is not three parts separated by `-`.
    WrongShape,
    /// A part is not a number.
    BadNumber(NumberError),
    /// The numbers do not form an accepted date.
    Invalid(NumerologyError),
}

/// Whether `c` is an ASCII decimal digit.
pub open spec fn is_decimal_digit(c: char) -> bool {
    '0' <= c <= '9'
}

/// Reading decimal digits left to right: the value so far, or the first
/// problem met (a non-digit, or a value past `u32::MAX`).
pub open spec fn read_digits(ds: Seq<char>) -> Result<nat, NumberError>
    decreases ds.len(),
{
    if ds.len() == 0 {
        Ok(0)
    } else {
        match read_digits(ds.drop_last()) {
            Err(e) => Err(e),
            Ok(v) => if !is_decimal_digit(ds.last()) {
                Err(NumberError::InvalidDigit)
            } else if v * 10 + (ds.last() as u32 - '0' as u32) > u32::MAX {
                Err(NumberError::Overflow)
            } else {
                Ok((v * 10 + (ds.last() as u32 - '0' as u32)) as nat)
            },
        }
    }
}

/// How `str::parse::<u32>` reads a text: an optional leading `+`, then one or
/// more decimal digits, with a value that fits in a `u32`.
pub open spec fn parse_u32_of(s: Seq<char>) -> Result<u32, NumberError> {
    if s.len() == 0 {
        Err(NumberError::Empty)
    } else {
        let ds = if s[0] == '+' {
            s.drop_first()
        } else {
            s
        };
        if ds.len() == 0 {
            Err(NumberError::InvalidDigit)
        } else {
            match read_digits(ds) {
                Ok(v) => Ok(v as u32),
                Err(e) => Err(e),
            }
        }
    }
}

/// The parts of a text between `-` separators (always at least one part).
pub open spec fn dash_parts(s: Seq<char>) -> Seq<Seq<char>>
    decreases s.len(),
{
    if s.len() == 0 {
        seq![Seq::empty()]
    } else {
        let parts = dash_parts(s.drop_last());
        if s.last() == '-' {
            parts.push(Seq::empty())
        } else {
            parts.update(parts.len() - 1, parts.last().push(s.last()))
        }
    }
}

/// How a date text reads: exactly three `-`-separated numbers (year, month,
/// day, the first bad one reported) that form an accepted date.
pub open spec fn date_text_of(s: Seq<char>) -> Result<BirthDate, DateTextError> {
    let parts = dash_parts(s);
    if parts.len() != 3 {
        Err(DateTextError::WrongShape)
    } else {
        match (parse_u32_of(parts[0]), parse_u32_of(parts[1]), parse_u32_of(parts[2])) {
            (Err(e), _, _) => Err(DateTextError::BadNumber(e)),
            (Ok(_), Err(e), _) => Err(DateTextError::BadNumber(e)),
            (Ok(_), Ok(_), Err(e)) => Err(DateTextError::BadNumber(e)),
            (Ok(y), Ok(m), Ok(d)) => if valid_date(y, m, d) {
                Ok(BirthDate { year: y, month: m, day: d })
            } else {
                Err(DateTextError::Invalid(NumerologyError::InvalidDate { year: y, month: m, day: d }))
            },
        }
    }
}

/// Read a `u32` as `str::parse::<u32>` does.
pub fn parse_u32(s: &Vec<char>) -> (r: Result<u32, NumberError>)
    ensures
        r == parse_u32_of(s@),
{
    if s.len() == 0 {
        return Err(NumberError::Empty);
    }
    let first: usize = if s[0] == '+' {
        1
    } else {
        0
    };
    let ghost ds = if s@[0] == '+' {
        s@.drop_first()
    } else {
        s@
    };
    proof {
        assert(ds =~= s@.skip(first as int));
    }
    if first == s.len() {
        return Err(NumberError::InvalidDigit);
    }
    let mut value: u32 = 0;
    let mut i = first;
    while i < s.len()
        invariant
            first <= i <= s@.len(),
            first < s@.len(),
            ds == s@.skip(first as int),
            ds == (if s@[0] == '+' {
                s@.drop_first()
            } else {
                s@
            }),
            read_digits(ds.take(i - first)) == Ok::<nat, NumberError>(value as nat),
        decreases s.len() - i,
    {
        let c = s[i];
        proof {
            assert(ds.take(i + 1 - first).drop_last() =~= ds.take(i - first));
            assert(ds.take(i + 1 - first).last() == c);
        }
        if !('0' <= c && c <= '9') {
            proof {
                let k = (i + 1 - first) as nat;
                assert(read_digits(ds.take(k as int)) == Err::<nat, NumberError>(NumberError::InvalidDigit));
                lemma_read_digits_error_sticks(ds, k);
            }
            return Err(NumberError::InvalidDigit);
        }
        let digit = (c as u32) - ('0' as u32);
        if value > 429_496_729 || (value == 429_496_729 && digit > 5) {
            proof {
                let k = (i + 1 - first) as nat;
                assert(value * 10 + digit > u32::MAX);
                assert(read_digits(ds.take(k as int)) == Err::<nat, NumberError>(NumberError::Overflow));
                lemma_read_digits_error_sticks(ds, k);
            }
            return Err(NumberError::Overflow);
        }
        value = value * 10 + digit;
        i = i + 1;
    }
    proof {
        assert(ds.take(i - first) =~= ds);
    }
    Ok(value)
}

/// Once reading fails on a prefix, it fails the same way on the whole text.
pub proof fn lemma_read_digits_error_sticks(ds: Seq<char>, k: nat)
    requires
        k <= ds.len(),
        read_digits(ds.take(k as int)) is Err,
    ensures
        read_digits(ds) == read_digits(ds.take(k as int)),
    decreases ds.len() - k,
{
    if k < ds.len() {
        assert(ds.take(k + 1 as int).drop_last() =~= ds.take(k as int));
        lemma_read_digits_error_sticks(ds, k + 1);
    } else {
        assert(ds.take(k as int) =~= ds);
    }
}

/// Read a date written `YYYY-MM-DD` (three `-`-separated numbers).
pub fn parse_date(input: &str) -> (r: Result<BirthDate, DateTextError>)
    ensures
        r == date_text_of(input@),
{
    let mut parts: Vec<Vec<char>> = Vec::new();
    let mut current: Vec<char> = Vec::new();
    for c in it: input.chars()
        invariant
            it.seq() == input@,
            parts@.map_values(|p: Vec<char>| p@).push(current@) == dash_parts(input@.take(it.index() as int)),
    {
        proof {
            assert(input@.take(it.index() + 1).drop_last() =~= input@.take(it.index() as int));
            assert(input@.take(it.index() + 1).last() == c);
        }
        let ghost before = parts@.map_values(|p: Vec<char>| p@).push(current@);
        if c == '-' {
            let mut done: Vec<char> = Vec::new();
            std::mem::swap(&mut done, &mut current);
            parts.push(done);
            proof {
                assert(parts@.map_values(|p: Vec<char>| p@).push(current@) =~= before.push(Seq::empty()));
            }
        } else {
            current.push(c);
            proof {
                assert(parts@.map_values(|p: Vec<char>| p@).push(current@) =~= before.update(
                    before.len() - 1,
                    before.last().push(c),
                ));
            }
        }
    }
    proof {
        assert(input@.take(input@.len() as int) =~= input@);
    }
    parts.push(current);
    proof {
        assert(parts@.map_values(|p: Vec<char>| p@) == dash_parts(input@));
    }
    if parts.len() != 3 {
        return Err(DateTextError::WrongShape);
    }
    let year = match parse_u32(&parts[0]) {
        Ok(v) => v,
        Err(e) => return Err(DateTextError::BadNumber(e)),
    };
    let month = match parse_u32(&parts[1]) {
        Ok(v) => v,
        Err(e) => return Err(DateTextError::BadNumber(e)),
    };
    let day = match parse_u32(&parts[2]) {
        Ok(v) => v,
        Err(e) => return Err(DateTextError::BadNumber(e)),
    };
    match BirthDate::new(year, month, day) {
        Ok(d) => Ok(d),
        Err(e) => Err(DateTextError::Invalid(e)),
    }
}

/// Which master numbers a query keeps: the Pythagorean core numbers keep 11,
/// 22 and 33, its personal cycles and universal day none; every cabalistic
/// number keeps 11 and 22 except the impression, which keeps none.
pub proof fn law_query_masters(system: System, number: Number, name: Seq<char>, birth: BirthDate, reference: BirthDate)
    ensures
        query_target(system, number, name, birth, reference) matches Some((raw, masters)) ==> masters == match system {
            System::Pythagorean => match number {
                Number::PersonalYear | Number::PersonalMonth | Number::PersonalDay | Number::UniversalDay => Seq::<
                    u32,
                >::empty(),
                _ => seq![11u32, 22, 33],
            },
            System::Cabalistic => match number {
                Number::Impression => Seq::<u32>::empty(),
                _ => seq![11u32, 22],
            },
        },
{
    assert(CABALISTIC_MASTERS@ =~= seq![11u32, 22]);
    assert(PYTHAGOREAN_MASTERS@ =~= seq![11u32, 22, 33]);
}

/// A cabalistic query gives the number the full cabalistic map holds at the
/// same position: whatever the query reduces, the map's number is that
/// reduction.
pub proof fn law_cabalistic_query_agrees_with_map(
    map: CabalisticMap,
    number: Number,
    name: Seq<char>,
    birth: BirthDate,
    reference: BirthDate,
)
    requires
        map.is_map_of(name, birth, reference),
    ensures
        query_target(System::Cabalistic, number, name, birth, reference) matches Some((raw, masters)) ==> match number {
            Number::Motivation => map.motivation.is_reduction_of(raw, masters),
            Number::Impression => map.impression.is_reduction_of(raw, masters),
            Number::Expression => map.expression.is_reduction_of(raw, masters),
            Number::HiddenTalent => map.hidden_talent.is_reduction_of(raw, masters),
            Number::Birthday => map.birth_day.is_reduction_of(raw, masters),
            Number::Psychic => map.psychic.is_reduction_of(raw, masters),
            Number::Destiny => map.destiny.is_reduction_of(raw, masters),
            Number::Mission => map.mission.is_reduction_of(raw, masters),
            Number::PersonalYear => map.personal_year.is_reduction_of(raw, masters),
            Number::PersonalMonth => map.personal_month.is_reduction_of(raw, masters),
            Number::PersonalDay => map.personal_day.is_reduction_of(raw, masters),
            _ => false,
        },
{
}

/// A Pythagorean query gives the number the full Pythagorean chart holds at
/// the same position.
pub proof fn law_pythagorean_query_agrees_with_chart(
    chart: PythagoreanChart,
    number: Number,
    name: Seq<char>,
    birth: BirthDate,
    reference: BirthDate,
    address: Option<Seq<char>>,
)
    requires
        chart.is_chart_of(name, birth, reference, address),
    ensures
        query_target(System::Pythagorean, number, name, birth, reference) matches Some((raw, masters)) ==> match number {
            Number::Expression => chart.expression.is_reduction_of(raw, masters),
            Number::Motivation => chart.soul_urge.is_reduction_of(raw, masters),
            Number::Impression => chart.personality.is_reduction_of(raw, masters),
            Number::LifePath => chart.life_path.is_reduction_of(raw, masters),
            Number::Birthday => chart.birthday.is_reduction_of(raw, masters),
            Number::Maturity => chart.maturity.is_reduction_of(raw, masters),
            Number::PersonalYear => chart.personal_year.is_reduction_of(raw, masters),
            Number::PersonalMonth => chart.personal_month.is_reduction_of(raw, masters),
            Number::PersonalDay => chart.personal_day.is_reduction_of(raw, masters),
            Number::UniversalDay => chart.universal_day.is_reduction_of(raw, masters),
            _ => false,
        },
{
}

} // verus!
