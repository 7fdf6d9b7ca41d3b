//! Aggregated profiles that compute a full chart for each system.

use vstd::prelude::*;

use crate::address::address_total;
use crate::cabalistic::{self, cabalistic_debts, mission_total};
use crate::cycles::{challenges, challenges_of, decision_moments, decision_totals, life_cycles};
use crate::date::{self, date_total, digits, BirthDate, ReferenceDate};
use crate::error::NumerologyError;
use crate::name::{
    digits_with_count, has_letters, most_frequent_of, name_consonants, name_frequency, name_initials, name_total,
    name_vowels, present_upto, lemma_name_sums_fit,
};
use crate::pyramid::{life_triangle, name_base, LifeTriangle};
use crate::reduction::{
    debt_entry, debt_views, lemma_reduced_bounds, record_debt, reduced_value, reduction_steps, CalculatedNumber,
    KarmicDebt, CABALISTIC_MASTERS, PYTHAGOREAN_MASTERS,
};
use crate::{address, pythagorean, System};

verus! {

/// A complete Pythagorean chart for a person.
#[derive(Clone, Debug, PartialEq, Eq)]
pub struct PythagoreanChart {
    /// Expression (Destiny) number.
    pub expression: CalculatedNumber,
    /// Soul Urge (Motivation) number.
    pub soul_urge: CalculatedNumber,
    /// Personality (Impression) number.
    pub personality: CalculatedNumber,
    /// Life Path number.
    pub life_path: CalculatedNumber,
    /// Birthday number.
    pub birthday: CalculatedNumber,
    /// Maturity number.
    pub maturity: CalculatedNumber,
    /// Personal Year for the reference date.
    pub personal_year: CalculatedNumber,
    /// Personal Month for the reference date.
    pub personal_month: CalculatedNumber,
    /// Personal Day for the reference date.
    pub personal_day: CalculatedNumber,
    /// Universal Day for the reference date.
    pub universal_day: CalculatedNumber,
    /// Hidden Passion digit(s).
    pub hidden_passion: Vec<u8>,
    /// Karmic Lessons (missing digits).
    pub karmic_lessons: Vec<u8>,
    /// Subconscious Self (distinct digits present).
    pub subconscious_self: u32,
    /// Karmic Debts found in core positions.
    pub karmic_debts: Vec<KarmicDebt>,
    /// House number, when an address is supplied.
    pub house: Option<CalculatedNumber>,
}

/// Value of the Pythagorean expression number of a name.
pub open spec fn pythagorean_expression_value(name: Seq<char>) -> u32 {
    reduced_value(name_total(name, System::Pythagorean) as u32, PYTHAGOREAN_MASTERS@)
}

/// Value of the Pythagorean life path of a birth date.
pub open spec fn life_path_value(birth: BirthDate) -> u32 {
    reduced_value(date_total(birth), PYTHAGOREAN_MASTERS@)
}

/// The karmic debts of a Pythagorean chart: expression, life path and
/// birthday, each listed with the first debt its reduction passes through.
pub open spec fn pythagorean_debts(name: Seq<char>, birth: BirthDate) -> Seq<(Seq<char>, u32)> {
    debt_entry("expression"@, reduction_steps(name_total(name, System::Pythagorean) as u32, PYTHAGOREAN_MASTERS@))
        + debt_entry("life path"@, reduction_steps(date_total(birth), PYTHAGOREAN_MASTERS@))
        + debt_entry("birthday"@, reduction_steps(birth.day, PYTHAGOREAN_MASTERS@))
}

impl PythagoreanChart {
    /// This chart holds exactly the Pythagorean numbers of `name`, `birth`,
    /// the `reference` date and the optional address.
    pub open spec fn is_chart_of(
        &self,
        name: Seq<char>,
        birth: BirthDate,
        reference: BirthDate,
        address: Option<Seq<char>>,
    ) -> bool {
        let masters = PYTHAGOREAN_MASTERS@;
        let sys = System::Pythagorean;
        &&& self.expression.is_reduction_of(name_total(name, sys) as u32, masters)
        &&& self.soul_urge.is_reduction_of(name_vowels(name, sys) as u32, masters)
        &&& self.personality.is_reduction_of(name_consonants(name, sys) as u32, masters)
        &&& self.life_path.is_reduction_of(date_total(birth), masters)
        &&& self.birthday.is_reduction_of(birth.day, masters)
        &&& self.maturity.is_reduction_of(
            (life_path_value(birth) + pythagorean_expression_value(name)) as u32,
            masters,
        )
        &&& self.personal_year.is_reduction_of(date::personal_year_total(birth, reference.year), Seq::empty())
        &&& self.personal_month.is_reduction_of(
            (date::personal_year_value(birth, reference.year) + digits(reference.month)) as u32,
            Seq::empty(),
        )
        &&& self.personal_day.is_reduction_of(
            (date::personal_month_value(birth, reference.year, reference.month) + digits(reference.day)) as u32,
            Seq::empty(),
        )
        &&& self.universal_day.is_reduction_of(date_total(reference), Seq::empty())
        &&& self.hidden_passion@ == most_frequent_of(name_frequency(name, sys))
        &&& self.karmic_lessons@ == digits_with_count(name_frequency(name, sys), 9, 0)
        &&& self.subconscious_self == present_upto(name_frequency(name, sys), 9)
        &&& debt_views(self.karmic_debts@) == pythagorean_debts(name, birth)
        &&& match address {
            Some(line) => self.house matches Some(h) && h.is_reduction_of(
                address_total(line, sys) as u32,
                masters,
            ),
            None => self.house is None,
        }
    }

    /// Compute a full Pythagorean chart.
    ///
    /// Fails with [`NumerologyError::EmptyName`] when the name has no usable
    /// letters, otherwise with [`NumerologyError::EmptyAddress`] when an
    /// address is supplied that sums to zero.
    pub fn new(
        name: &str,
        birth: BirthDate,
        reference: ReferenceDate,
        address_line: Option<&str>,
    ) -> (r: Result<Self, NumerologyError>)
        requires
            name_total(name@, System::Pythagorean) <= u32::MAX,
            address_line matches Some(line) ==> address_total(line@, System::Pythagorean) <= u32::MAX,
        ensures
            r is Ok <==> has_letters(name@) && (address_line matches Some(line) ==> address_total(
                line@,
                System::Pythagorean,
            ) != 0),
            r matches Ok(c) ==> c.is_chart_of(
                name@,
                birth,
                reference,
                match address_line {
                    Some(line) => Some(line@),
                    None => None,
                },
            ),
            r matches Err(e) ==> e == if has_letters(name@) {
                NumerologyError::EmptyAddress
            } else {
                NumerologyError::EmptyName
            },
    {
        proof {
            lemma_name_sums_fit(name@, System::Pythagorean);
        }
        let expression = pythagorean::expression_number(name)?;
        let soul_urge = pythagorean::motivation_number(name)?;
        let personality = pythagorean::impression_number(name)?;
        let life_path = date::life_path_number(birth);
        let birthday = date::birthday_number(birth);
        proof {
            lemma_reduced_bounds(date_total(birth));
            lemma_reduced_bounds(name_total(name@, System::Pythagorean) as u32);
        }
        let maturity = date::maturity_number(&life_path, &expression);

        let mut karmic_debts: Vec<KarmicDebt> = Vec::new();
        record_debt(&mut karmic_debts, "expression", &expression);
        record_debt(&mut karmic_debts, "life path", &life_path);
        record_debt(&mut karmic_debts, "birthday", &birthday);
        proof {
            assert(debt_views(Seq::<KarmicDebt>::empty()) =~= Seq::empty());
            assert(debt_views(karmic_debts@) =~= pythagorean_debts(name@, birth));
        }

        let house = match address_line {
            Some(line) => Some(address::house_number(line)?),
            None => None,
        };

        Ok(
            Self {
                expression,
                soul_urge,
                personality,
                life_path,
                birthday,
                maturity,
                personal_year: date::personal_year(birth, reference.year),
                personal_month: date::personal_month(birth, reference.year, reference.month),
                personal_day: date::personal_day(birth, reference.year, reference.month, reference.day),
                universal_day: date::universal_day(reference),
                hidden_passion: pythagorean::hidden_passion_numbers(name)?,
                karmic_lessons: pythagorean::karmic_lessons(name)?,
                subconscious_self: pythagorean::subconscious_self_number(name)?,
                karmic_debts,
                house,
            },
        )
    }
}

/// A complete cabalistic map for a person.
#[derive(Clone, Debug, PartialEq, Eq)]
pub struct CabalisticMap {
    /// Motivation number.
    pub motivation: CalculatedNumber,
    /// Impression number.
    pub impression: CalculatedNumber,
    /// Expression number.
    pub expression: CalculatedNumber,
    /// Hidden Talent number.
    pub hidden_talent: CalculatedNumber,
    /// Birthday number.
    pub birth_day: CalculatedNumber,
    /// Psychic number.
    pub psychic: CalculatedNumber,
    /// Destiny number.
    pub destiny: CalculatedNumber,
    /// Mission number.
    pub mission: CalculatedNumber,
    /// Karmic Lessons (missing digits).
    pub karmic_lessons: Vec<u8>,
    /// Karmic Debts found in core positions.
    pub karmic_debts: Vec<KarmicDebt>,
    /// Hidden Tendencies (most frequent digits).
    pub hidden_tendencies: Vec<u8>,
    /// Subconscious Response (distinct digits present).
    pub subconscious_response: u32,
    /// The three Life Cycles.
    pub life_cycles: [CalculatedNumber; 3],
    /// The three Challenges.
    pub challenges: [u32; 3],
    /// The four Decision Moments.
    pub decision_moments: [CalculatedNumber; 4],
    /// Personal Year for the reference date.
    pub personal_year: CalculatedNumber,
    /// Personal Month for the reference date.
    pub personal_month: CalculatedNumber,
    /// Personal Day for the reference date.
    pub personal_day: CalculatedNumber,
    /// The inverted Life Triangle.
    pub life_triangle: LifeTriangle,
}

impl CabalisticMap {
    /// This map holds exactly the cabalistic numbers of `name`, `birth` and
    /// the `reference` date.
    pub open spec fn is_map_of(&self, name: Seq<char>, birth: BirthDate, reference: BirthDate) -> bool {
        let masters = CABALISTIC_MASTERS@;
        let sys = System::Cabalistic;
        &&& self.motivation.is_reduction_of(name_vowels(name, sys) as u32, masters)
        &&& self.impression.is_reduction_of(name_consonants(name, sys) as u32, Seq::empty())
        &&& self.expression.is_reduction_of(name_total(name, sys) as u32, masters)
        &&& self.hidden_talent.is_reduction_of(name_initials(name, sys) as u32, masters)
        &&& self.birth_day.is_reduction_of(birth.day, masters)
        &&& self.psychic.is_reduction_of(birth.day, masters)
        &&& self.destiny.is_reduction_of(date_total(birth), masters)
        &&& self.mission.is_reduction_of(mission_total(name, birth), masters)
        &&& self.karmic_lessons@ == digits_with_count(name_frequency(name, sys), 9, 0)
        &&& debt_views(self.karmic_debts@) == cabalistic_debts(name, birth)
        &&& self.hidden_tendencies@ == most_frequent_of(name_frequency(name, sys))
        &&& self.subconscious_response == present_upto(name_frequency(name, sys), 9)
        &&& self.life_cycles@[0].is_reduction_of(birth.month, masters)
        &&& self.life_cycles@[1].is_reduction_of(birth.day, masters)
        &&& self.life_cycles@[2].is_reduction_of(birth.year, masters)
        &&& self.challenges@ == challenges_of(birth)
        &&& forall|i: int| 0 <= i < 4 ==> #[trigger] self.decision_moments@[i].is_reduction_of(
            decision_totals(birth)[i],
            masters,
        )
        &&& self.personal_year.is_reduction_of(cabalistic::personal_year_total(birth, reference.year), masters)
        &&& self.personal_month.is_reduction_of(
            (cabalistic::personal_year_value(birth, reference.year) + digits(reference.month)) as u32,
            masters,
        )
        &&& self.personal_day.is_reduction_of(
            (cabalistic::personal_month_value(birth, reference.year, reference.month) + digits(reference.day)) as u32,
            masters,
        )
        &&& self.life_triangle.is_built_on(name_base(name))
    }

    /// Compute a full cabalistic map.
    ///
    /// Fails with [`NumerologyError::EmptyName`] exactly when the name has
    /// fewer than two usable letters (the Life Triangle needs two).
    pub fn new(name: &str, birth: BirthDate, reference: ReferenceDate) -> (r: Result<Self, NumerologyError>)
        requires
            name_total(name@, System::Cabalistic) <= u32::MAX,
        ensures
            r is Ok <==> name_base(name@).len() >= 2,
            r matches Ok(m) ==> m.is_map_of(name@, birth, reference),
            r matches Err(e) ==> e == NumerologyError::EmptyName,
    {
        proof {
            crate::name::lemma_letter_values_nonempty(name@, System::Cabalistic);
            lemma_name_sums_fit(name@, System::Cabalistic);
        }
        Ok(
            Self {
                motivation: cabalistic::motivation_number(name)?,
                impression: cabalistic::impression_number(name)?,
                expression: cabalistic::expression_number(name)?,
                hidden_talent: cabalistic::hidden_talent_number(name)?,
                birth_day: cabalistic::birth_day_number(birth),
                psychic: cabalistic::psychic_number(birth),
                destiny: cabalistic::destiny_number(birth),
                mission: cabalistic::mission_number(name, birth)?,
                karmic_lessons: cabalistic::karmic_lessons(name)?,
                karmic_debts: cabalistic::karmic_debts(name, birth)?,
                hidden_tendencies: cabalistic::hidden_tendencies(name)?,
                subconscious_response: cabalistic::subconscious_response(name)?,
                life_cycles: life_cycles(birth),
                challenges: challenges(birth),
                decision_moments: decision_moments(birth),
                personal_year: cabalistic::personal_year(birth, reference.year),
                personal_month: cabalistic::personal_month(birth, reference.year, reference.month),
                personal_day: cabalistic::personal_day(birth, reference.year, reference.month, reference.day),
                life_triangle: life_triangle(name)?,
            },
        )
    }
}

} // verus!
