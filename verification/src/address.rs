//! House / address numerology.

use vstd::prelude::*;

use crate::alphabet::{decode, decode_of, law_decoded_values_in_range};
use crate::error::NumerologyError;
use crate::reduction::{reduce, CalculatedNumber, PYTHAGOREAN_MASTERS};
use crate::System;

verus! {

/// Longest address, in characters, whose sum is sure to fit in a `u32`
/// (every character is worth at most 9; see [`lemma_short_addresses_fit`]).
pub const MAX_ADDRESS_CHARS: usize = 477_218_588;

/// What one character of an address is worth: a decimal digit its value, a
/// letter its value under `system`, anything else nothing.
pub open spec fn address_char_value(c: char, system: System) -> nat {
    if '0' <= c <= '9' {
        (c as u32 - '0' as u32) as nat
    } else {
        match decode_of(c) {
            Some(d) => system.value_of(d) as nat,
            None => 0,
        }
    }
}

/// Sum of an address: digits plus letter values under `system`.
pub open spec fn address_total(chars: Seq<char>, system: System) -> nat
    decreases chars.len(),
{
    if chars.len() == 0 {
        0
    } else {
        address_total(chars.drop_last(), system) + address_char_value(chars.last(), system)
    }
}

/// Sum of an address: numeric digits plus letter values under `system`.
pub fn address_sum(address: &str, system: System) -> (s: u32)
    requires
        address_total(address@, system) <= u32::MAX,
    ensures
        s == address_total(address@, system),
{
    let mut sum: u32 = 0;
    for c in it: address.chars()
        invariant
            it.seq() == address@,
            address_total(address@, system) <= u32::MAX,
            it.index() <= address@.len(),
            sum == address_total(address@.take(it.index() as int), system),
    {
        proof {
            assert(address@.take(it.index() + 1).drop_last() =~= address@.take(it.index() as int));
            assert(address@.take(it.index() + 1).last() == c);
            lemma_address_prefix_total(address@, it.index() + 1, system);
        }
        let value: u32 = if '0' <= c && c <= '9' {
            (c as u32) - ('0' as u32)
        } else {
            match decode(c) {
                Some(d) => {
                    proof {
                        law_decoded_values_in_range(c);
                    }
                    system.letter_value(&d) as u32
                },
                None => 0,
            }
        };
        sum = sum + value;
    }
    proof {
        assert(address@.take(address@.len() as int) =~= address@);
    }
    sum
}

/// House number for an address, using the Pythagorean letter table.
///
/// Fails with [`NumerologyError::EmptyAddress`] exactly when the address sums
/// to zero (no digit other than 0 and no letter).
pub fn house_number(address: &str) -> (r: Result<CalculatedNumber, NumerologyError>)
    requires
        address_total(address@, System::Pythagorean) <= u32::MAX,
    ensures
        r is Ok <==> address_total(address@, System::Pythagorean) != 0,
        r matches Ok(cn) ==> cn.is_reduction_of(
            address_total(address@, System::Pythagorean) as u32,
            PYTHAGOREAN_MASTERS@,
        ),
        r matches Err(e) ==> e == NumerologyError::EmptyAddress,
{
    let sum = address_sum(address, System::Pythagorean);
    if sum == 0 {
        return Err(NumerologyError::EmptyAddress);
    }
    Ok(reduce(sum, &PYTHAGOREAN_MASTERS))
}

/// An address sum adds up piece by piece: the sum of two joined texts is the
/// sum of each, so spacing and punctuation (worth nothing) never matter.
pub proof fn law_address_total_additive(a: Seq<char>, b: Seq<char>, system: System)
    ensures
        address_total(a + b, system) == address_total(a, system) + address_total(b, system),
    decreases b.len(),
{
    if b.len() > 0 {
        law_address_total_additive(a, b.drop_last(), system);
        assert((a + b).drop_last() =~= a + b.drop_last());
        assert((a + b).last() == b.last());
    } else {
        assert(a + b =~= a);
    }
}

/// A prefix of an address never sums to more than the whole address.
proof fn lemma_address_prefix_total(chars: Seq<char>, n: int, system: System)
    requires
        0 <= n <= chars.len(),
    ensures
        address_total(chars.take(n), system) <= address_total(chars, system),
{
    law_address_total_additive(chars.take(n), chars.skip(n), system);
    assert(chars.take(n) + chars.skip(n) =~= chars);
}

/// Every character of an address is worth at most 9.
proof fn lemma_address_total_bound(chars: Seq<char>, system: System)
    ensures
        address_total(chars, system) <= 9 * chars.len(),
    decreases chars.len(),
{
    if chars.len() > 0 {
        lemma_address_total_bound(chars.drop_last(), system);
        let c = chars.last();
        if let Some(d) = decode_of(c) {
            law_decoded_values_in_range(c);
        }
    }
}

/// An address of at most `MAX_ADDRESS_CHARS` characters sums to at most
/// `u32::MAX`.
pub proof fn lemma_short_addresses_fit(chars: Seq<char>, system: System)
    requires
        chars.len() <= MAX_ADDRESS_CHARS,
    ensures
        address_total(chars, system) <= u32::MAX,
{
    lemma_address_total_bound(chars, system);
}

} // verus!
