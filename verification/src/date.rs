//! Calendar inputs and date-based Pythagorean calculations.

use vstd::prelude::*;

use crate::error::NumerologyError;
use crate::reduction::{
    digit_sum, digit_sum_of, digital_root, lemma_digit_sum_of_u32, lemma_reduced_bounds, reduce,
    reduce_single, reduced_value, CalculatedNumber, PYTHAGOREAN_MASTERS,
};

verus! {

/// A validated calendar date used both for birth dates and reference dates.
#[derive(Clone, Copy, Debug, PartialEq, Eq, Structural)]
pub struct BirthDate {
    /// Four-digit year (must be non-zero).
    pub year: u32,
    /// Month `1..=12`.
    pub month: u32,
    /// Day `1..=31`.
    pub day: u32,
}

/// A reference date (e.g. "today") uses the same shape as a birth date.
pub type ReferenceDate = BirthDate;

/// The ranges a date must lie in: a non-zero year, month `1..=12`, day `1..=31`.
pub open spec fn valid_date(year: u32, month: u32, day: u32) -> bool {
    year != 0 && 1 <= month <= 12 && 1 <= day <= 31
}

/// Sum of the digits of a number, as a `u32`.
pub open spec fn digits(n: u32) -> u32 {
    digit_sum_of(n as nat) as u32
}

/// Sum of the digits of the whole date: year, month and day.
pub open spec fn date_total(d: BirthDate) -> u32 {
    (digits(d.year) + digits(d.month) + digits(d.day)) as u32
}

/// Raw total of a personal year: birth day, birth month and the year, digit by digit.
pub open spec fn personal_year_total(birth: BirthDate, year: u32) -> u32 {
    (digits(birth.day) + digits(birth.month) + digits(year)) as u32
}

/// Digit sums of `u32` values stay at most 90, so date totals fit easily.
pub proof fn lemma_date_digits_small(a: u32, b: u32, c: u32)
    ensures
        digits(a) <= 90,
        digits(b) <= 90,
        digits(c) <= 90,
        digits(a) + digits(b) + digits(c) <= 270,
{
    lemma_digit_sum_of_u32(a);
    lemma_digit_sum_of_u32(b);
    lemma_digit_sum_of_u32(c);
}

impl BirthDate {
    /// Create a date, validating basic calendar ranges.
    ///
    /// Fails with [`NumerologyError::InvalidDate`], carrying the inputs,
    /// exactly when the year is 0, the month is outside `1..=12` or the day
    /// outside `1..=31`.
    pub fn new(year: u32, month: u32, day: u32) -> (r: Result<Self, NumerologyError>)
        ensures
            r is Ok <==> valid_date(year, month, day),
            r matches Ok(d) ==> d.year == year && d.month == month && d.day == day,
            r matches Err(e) ==> e == (NumerologyError::InvalidDate { year, month, day }),
    {
        if year == 0 || !(1 <= month && month <= 12) || !(1 <= day && day <= 31) {
            return Err(NumerologyError::InvalidDate { year, month, day });
        }
        Ok(Self { year, month, day })
    }

    /// Sum of the digits of the full date (day, month, year).
    pub fn digit_total(self) -> (t: u32)
        ensures
            t == digits(self.year) + digits(self.month) + digits(self.day),
            t == date_total(self),
            t <= 270,
    {
        proof {
            lemma_date_digits_small(self.year, self.month, self.day);
        }
        digit_sum(self.year) + digit_sum(self.month) + digit_sum(self.day)
    }
}


/// Whether `y` is a leap year of the proleptic Gregorian calendar.
pub open spec fn is_leap_year(y: int) -> bool {
    (y % 4 == 0 && y % 100 != 0) || y % 400 == 0
}

/// Days in month `m` of year `y`.
pub open spec fn days_in_month(y: int, m: int) -> int {
    if m == 2 {
        if is_leap_year(y) {
            29
        } else {
            28
        }
    } else if m == 4 || m == 6 || m == 9 || m == 11 {
        30
    } else {
        31
    }
}

/// Leap years from year 1 up to, not including, year `y`.
pub open spec fn leap_years_before(y: int) -> int {
    (y - 1) / 4 - (y - 1) / 100 + (y - 1) / 400
}

/// Days in the months of year `y` before month `m`.
pub open spec fn days_before_month(y: int, m: int) -> int
    decreases m,
{
    if m <= 1 {
        0
    } else {
        days_before_month(y, m - 1) + days_in_month(y, m - 1)
    }
}

/// Days from 0001-01-01 to the date `y-m-d`.
pub open spec fn day_count(y: int, m: int, d: int) -> int {
    365 * (y - 1) + leap_years_before(y) + days_before_month(y, m) + d - 1
}

/// Days from 1970-01-01 to the date `y-m-d` (negative before it).
pub open spec fn days_since_epoch(y: int, m: int, d: int) -> int {
    day_count(y, m, d) - day_count(1970, 1, 1)
}

/// Days before each month, written out.
proof fn lemma_days_before_month(y: int, m: int)
    requires
        1 <= m <= 12,
    ensures
        m == 1 ==> days_before_month(y, m) == 0,
        m == 2 ==> days_before_month(y, m) == 31,
        m >= 3 ==> days_before_month(y, m) == 59 + (if is_leap_year(y) { 1int } else { 0 }) + (153 * (m - 3) + 2) / 5,
{
    reveal_with_fuel(days_before_month, 13);
}

/// The day count in March-based form: years start on March 1st, so the leap
/// day closes the year, and months are counted from March.
proof fn lemma_day_count_march_form(y: int, m: int, d: int)
    requires
        1 <= m <= 12,
    ensures
        ({
            let yy = if m <= 2 { y - 1 } else { y };
            let mp = if m >= 3 { m - 3 } else { m + 9 };
            day_count(y, m, d) == 365 * yy + yy / 4 - yy / 100 + yy / 400 + (153 * mp + 2) / 5 + d - 1 - 306
        }),
{
    lemma_days_before_month(y, m);
}

/// Within a 400-year era, the year of the era and day of that year that
/// `civil_from_days` finds: the year is in range and the day fits it.
proof fn lemma_year_of_era(doe: int)
    requires
        0 <= doe <= 146096,
    ensures
        ({
            let yoe = (doe - doe / 1460 + doe / 36524 - doe / 146096) / 365;
            let doy = doe - (365 * yoe + yoe / 4 - yoe / 100);
            &&& 0 <= yoe <= 399
            &&& 0 <= doy
            &&& doy <= 364 + if is_leap_year(yoe + 1) { 1int } else { 0 }
        }),
{
}

/// The March-based month of a day of the year and the day in that month.
proof fn lemma_month_of_year(doy: int)
    requires
        0 <= doy <= 365,
    ensures
        ({
            let mp = (5 * doy + 2) / 153;
            let d = doy - (153 * mp + 2) / 5 + 1;
            &&& 0 <= mp <= 11
            &&& 1 <= d
            &&& mp < 11 ==> d <= days_in_month(0, if mp < 10 { mp + 3 } else { mp - 9 })
            &&& mp == 11 ==> d == doy - 336
        }),
{
}

/// Shifting a year by whole 400-year eras keeps its leap status and shifts
/// its leap-year counts by whole eras.
proof fn lemma_era_shift(n: int, era: int)
    ensures
        is_leap_year(n + 400 * era) == is_leap_year(n),
        (n + 400 * era) / 4 == n / 4 + 100 * era,
        (n + 400 * era) / 100 == n / 100 + 4 * era,
        (n + 400 * era) / 400 == n / 400 + era,
{
}

/// The calendar arithmetic behind `civil_from_days`, on mathematical
/// integers: with `z` days counted from 0000-03-01, the era, year of the era,
/// day of the year, month and day that the algorithm computes name the date
/// that lies `z - 719468` days after 1970-01-01.
proof fn lemma_civil(z: int)
    ensures
        ({
            let era = z / 146097;
            let doe = z - era * 146097;
            let yoe = (doe - doe / 1460 + doe / 36524 - doe / 146096) / 365;
            let doy = doe - (365 * yoe + yoe / 4 - yoe / 100);
            let mp = (5 * doy + 2) / 153;
            let d = doy - (153 * mp + 2) / 5 + 1;
            let m = if mp < 10 { mp + 3 } else { mp - 9 };
            let y = yoe + era * 400 + if m <= 2 { 1int } else { 0 };
            &&& 0 <= doe <= 146096
            &&& 0 <= yoe <= 399
            &&& 0 <= doy <= 365
            &&& 0 <= mp <= 11
            &&& 1 <= m <= 12
            &&& 1 <= d <= days_in_month(y, m)
            &&& days_since_epoch(y, m, d) == z - 719468
        }),
{
    let era = z / 146097;
    let doe = z - era * 146097;
    lemma_year_of_era(doe);
    let yoe = (doe - doe / 1460 + doe / 36524 - doe / 146096) / 365;
    let doy = doe - (365 * yoe + yoe / 4 - yoe / 100);
    lemma_month_of_year(doy);
    let mp = (5 * doy + 2) / 153;
    let d = doy - (153 * mp + 2) / 5 + 1;
    let m = if mp < 10 { mp + 3 } else { mp - 9 };
    let y = yoe + era * 400 + if m <= 2 { 1int } else { 0 };
    let yy = yoe + era * 400;
    lemma_era_shift(yoe + 1, era);
    lemma_era_shift(yoe, era);
    assert(yoe / 400 == 0);
    lemma_day_count_march_form(y, m, d);
    lemma_day_count_march_form(1970, 1, 1);
    assert(yy / 4 == yoe / 4 + 100 * era);
    assert(365 * yy + yy / 4 - yy / 100 + yy / 400 == 146097 * era + 365 * yoe + yoe / 4 - yoe / 100);
    if m <= 2 {
        assert(is_leap_year(y) == is_leap_year(yoe + 1));
    }
}

/// The calendar date `days` days after 1970-01-01, as (year, month, day).
pub fn civil_from_days(days: i64) -> (r: (i64, u32, u32))
    requires
        days <= i64::MAX - 719_468,
    ensures
        1 <= r.1 <= 12,
        1 <= r.2 <= days_in_month(r.0 as int, r.1 as int),
        days_since_epoch(r.0 as int, r.1 as int, r.2 as int) == days,
{
    proof {
        lemma_civil(days + 719_468);
    }
    let z = days + 719_468;
    let era = (if z >= 0 {
        z
    } else {
        z - 146_096
    }) / 146_097;
    assert(era == (z as int) / 146_097);
    let doe = z - era * 146_097;
    let yoe = (doe - doe / 1460 + doe / 36_524 - doe / 146_096) / 365;
    let year = yoe + era * 400;
    let doy = doe - (365 * yoe + yoe / 4 - yoe / 100);
    let mp = (5 * doy + 2) / 153;
    let day = (doy - (153 * mp + 2) / 5 + 1) as u32;
    let month = (if mp < 10 {
        mp + 3
    } else {
        mp - 9
    }) as u32;
    let y = year + if month <= 2 {
        1
    } else {
        0
    };
    (y, month, day)
}

/// Life Path number: reduction of the full birth date, preserving masters.
pub fn life_path_number(birth: BirthDate) -> (cn: CalculatedNumber)
    ensures
        cn.is_reduction_of(date_total(birth), PYTHAGOREAN_MASTERS@),
{
    reduce(birth.digit_total(), &PYTHAGOREAN_MASTERS)
}

/// Birthday number: the day of birth, reduced and preserving masters.
pub fn birthday_number(birth: BirthDate) -> (cn: CalculatedNumber)
    ensures
        cn.is_reduction_of(birth.day, PYTHAGOREAN_MASTERS@),
{
    reduce(birth.day, &PYTHAGOREAN_MASTERS)
}

/// Maturity number: reduction of Life Path + Expression.
pub fn maturity_number(life_path: &CalculatedNumber, expression: &CalculatedNumber) -> (cn: CalculatedNumber)
    requires
        life_path.value + expression.value <= u32::MAX,
    ensures
        cn.is_reduction_of((life_path.value + expression.value) as u32, PYTHAGOREAN_MASTERS@),
{
    reduce(life_path.value + expression.value, &PYTHAGOREAN_MASTERS)
}

/// Universal Day: reduction of the given calendar date to a single digit.
pub fn universal_day(date: BirthDate) -> (cn: CalculatedNumber)
    ensures
        cn.is_reduction_of(date_total(date), Seq::empty()),
{
    reduce_single(date.digit_total())
}

/// Value of the Pythagorean personal year.
pub open spec fn personal_year_value(birth: BirthDate, year: u32) -> u32 {
    digital_root(personal_year_total(birth, year))
}

/// Value of the Pythagorean personal month.
pub open spec fn personal_month_value(birth: BirthDate, year: u32, month: u32) -> u32 {
    digital_root((personal_year_value(birth, year) + digits(month)) as u32)
}

/// Personal Year: birth day + birth month + reference year, single digit.
pub fn personal_year(birth: BirthDate, year: u32) -> (cn: CalculatedNumber)
    ensures
        cn.is_reduction_of(personal_year_total(birth, year), Seq::empty()),
        cn.value == personal_year_value(birth, year),
{
    proof {
        lemma_date_digits_small(birth.day, birth.month, year);
    }
    reduce_single(digit_sum(birth.day) + digit_sum(birth.month) + digit_sum(year))
}

/// Personal Month: Personal Year + calendar month, single digit.
pub fn personal_month(birth: BirthDate, year: u32, month: u32) -> (cn: CalculatedNumber)
    ensures
        cn.is_reduction_of((personal_year_value(birth, year) + digits(month)) as u32, Seq::empty()),
        cn.value == personal_month_value(birth, year, month),
{
    let py = personal_year(birth, year);
    proof {
        lemma_reduced_bounds(personal_year_total(birth, year));
        lemma_digit_sum_of_u32(month);
    }
    reduce_single(py.value + digit_sum(month))
}

/// Personal Day: Personal Month + calendar day, single digit.
pub fn personal_day(birth: BirthDate, year: u32, month: u32, day: u32) -> (cn: CalculatedNumber)
    ensures
        cn.is_reduction_of((personal_month_value(birth, year, month) + digits(day)) as u32, Seq::empty()),
{
    let pm = personal_month(birth, year, month);
    proof {
        lemma_reduced_bounds((personal_year_value(birth, year) + digits(month)) as u32);
        lemma_digit_sum_of_u32(day);
    }
    reduce_single(pm.value + digit_sum(day))
}

/// Personal cycles chain: for a valid birth date the personal year is a
/// digit from 1 to 9, and the month (day) adds the month's (day's) digits to the
/// year (month) before reducing again.
pub proof fn law_personal_cycles_chain(birth: BirthDate, year: u32, month: u32)
    requires
        valid_date(birth.year, birth.month, birth.day),
    ensures
        personal_year_value(birth, year) <= 9,
        personal_month_value(birth, year, month) == digital_root(
            (personal_year_value(birth, year) + digits(month)) as u32,
        ),
        personal_month_value(birth, year, month) <= 9,
        1 <= personal_year_value(birth, year),
{
    lemma_date_digits_small(birth.day, birth.month, year);
    lemma_digit_sum_of_u32(month);
    lemma_reduced_bounds(personal_year_total(birth, year));
    lemma_reduced_bounds((personal_year_value(birth, year) + digits(month)) as u32);
    crate::reduction::law_digital_root_closed_form(personal_year_total(birth, year));
    crate::reduction::lemma_digit_sum_shrinks(birth.day as nat);
}

} // verus!
