//! Numerology calculations for the Pythagorean and the Brazilian cabalistic
//! systems, with every number's arithmetic stated and proved.
//!
//! - [`pythagorean`]: the Western `A=1..I=9` system, preserving master numbers
//!   `11`, `22`, `33`.
//! - [`cabalistic`]: the Brazilian cabalistic `1..8` system, preserving master
//!   numbers `11`, `22`, and valuing graphic accents.
//!
//! High-level profiles live in [`chart`]. Lower-level building blocks are
//! exposed per topic: [`reduction`], [`alphabet`], [`name`], [`date`],
//! [`address`], [`cycles`], [`pyramid`] and [`compatibility`]; [`query`] picks
//! a single number by system and name.

pub mod address;
pub mod alphabet;
pub mod cabalistic;
pub mod chart;
pub mod compatibility;
pub mod cycles;
pub mod date;
pub mod error;
pub mod name;
pub mod pyramid;
pub mod pythagorean;
pub mod query;
pub mod reduction;

use vstd::prelude::*;

pub use date::{BirthDate, ReferenceDate};
pub use error::NumerologyError;
pub use reduction::CalculatedNumber;

use alphabet::{base_byte, cabalistic_value, cabalistic_value_of, pythagorean_value, pythagorean_value_of, DecodedChar};
use reduction::{CABALISTIC_MASTERS, PYTHAGOREAN_MASTERS};

verus! {

/// The numerology system used to value letters and preserve master numbers.
#[derive(Clone, Copy, Debug, PartialEq, Eq, Structural)]
pub enum System {
    /// Western Pythagorean system (`A=1..I=9`, masters 11/22/33).
    Pythagorean,
    /// Brazilian cabalistic system (`1..8`, masters 11/22, accents count).
    Cabalistic,
}

impl System {
    /// The value of a decoded letter under this system.
    pub open spec fn value_of(self, decoded: DecodedChar) -> u8 {
        match self {
            System::Pythagorean => pythagorean_value_of(decoded),
            System::Cabalistic => cabalistic_value_of(decoded),
        }
    }

    /// The master numbers this system preserves.
    pub open spec fn master_numbers(self) -> Seq<u32> {
        match self {
            System::Pythagorean => PYTHAGOREAN_MASTERS@,
            System::Cabalistic => CABALISTIC_MASTERS@,
        }
    }

    /// The numeric value of a decoded letter under this system.
    pub fn letter_value(self, decoded: &DecodedChar) -> (v: u8)
        requires
            self == System::Pythagorean ==> base_byte(*decoded) >= 65,
        ensures
            v == self.value_of(*decoded),
            v <= 9,
    {
        match self {
            System::Pythagorean => pythagorean_value(decoded),
            System::Cabalistic => cabalistic_value(decoded),
        }
    }

    /// The master numbers preserved by this system.
    pub fn masters(self) -> (m: &'static [u32])
        ensures
            m@ == self.master_numbers(),
    {
        match self {
            System::Pythagorean => &PYTHAGOREAN_MASTERS,
            System::Cabalistic => &CABALISTIC_MASTERS,
        }
    }
}

} // verus!
