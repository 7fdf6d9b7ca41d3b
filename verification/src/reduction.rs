//! Numeric reduction (digital root) with optional master-number preservation.
//!
//! A reduction keeps the whole trail of visited values, starting with the raw
//! total, so callers can look for karmic debts along the way.

use vstd::prelude::*;

verus! {

/// Master numbers preserved by the Pythagorean system.
pub const PYTHAGOREAN_MASTERS: [u32; 3] = [11, 22, 33];

/// Master numbers preserved by the cabalistic system.
pub const CABALISTIC_MASTERS: [u32; 2] = [11, 22];

/// Compound numbers traditionally treated as karmic debts.
pub const KARMIC_DEBTS: [u32; 4] = [13, 14, 16, 19];

/// Sum of the decimal digits of `n`.
pub open spec fn digit_sum_of(n: nat) -> nat
    decreases n,
{
    if n == 0 {
        0
    } else {
        n % 10 + digit_sum_of(n / 10)
    }
}

/// A digit sum never exceeds its number, and is strictly smaller from 10 on.
pub proof fn lemma_digit_sum_shrinks(n: nat)
    ensures
        digit_sum_of(n) <= n,
        n >= 10 ==> digit_sum_of(n) < n,
        digit_sum_of(n) == 0 <==> n == 0,
    decreases n,
{
    if n > 0 {
        lemma_digit_sum_shrinks(n / 10);
    }
}

/// Whether a reduction stops at `n`: single digits and master numbers stay.
pub open spec fn stops_at(n: u32, masters: Seq<u32>) -> bool {
    n <= 9 || masters.contains(n)
}

/// Every value visited while reducing `n`, starting with `n` itself: each
/// next value is the digit sum of the previous one, until a value stops.
pub open spec fn reduction_steps(n: u32, masters: Seq<u32>) -> Seq<u32>
    decreases n,
{
    if stops_at(n, masters) {
        seq![n]
    } else {
        proof {
            lemma_digit_sum_shrinks(n as nat);
        }
        seq![n] + reduction_steps(digit_sum_of(n as nat) as u32, masters)
    }
}

/// The value a reduction of `n` ends on.
pub open spec fn reduced_value(n: u32, masters: Seq<u32>) -> u32 {
    reduction_steps(n, masters).last()
}

/// The value a reduction of `n` ends on when no master number is kept.
pub open spec fn digital_root(n: u32) -> u32 {
    reduced_value(n, Seq::empty())
}

/// A number together with the trail of how it was reduced.
#[derive(Clone, Debug, PartialEq, Eq)]
pub struct CalculatedNumber {
    /// The initial total before any reduction.
    pub raw: u32,
    /// The final reduced value (single digit, or a preserved master number).
    pub value: u32,
    /// Whether `value` is a preserved master number.
    pub is_master: bool,
    /// Every value visited during reduction, starting with `raw`.
    pub steps: Vec<u32>,
}

impl CalculatedNumber {
    /// `self` is exactly the reduction of `raw` under `masters`.
    pub open spec fn is_reduction_of(&self, raw: u32, masters: Seq<u32>) -> bool {
        &&& self.raw == raw
        &&& self.steps@ == reduction_steps(raw, masters)
        &&& self.value == reduced_value(raw, masters)
        &&& self.is_master == (self.value > 9 && masters.contains(self.value))
    }

    /// Whether the reduction passed through `n` at any step.
    pub fn passes_through(&self, n: u32) -> (r: bool)
        ensures
            r == self.steps@.contains(n),
    {
        slice_contains(self.steps.as_slice(), n)
    }
}

/// Whether `values` holds `x`.
pub fn slice_contains(values: &[u32], x: u32) -> (r: bool)
    ensures
        r == values@.contains(x),
{
    let mut i: usize = 0;
    while i < values.len()
        invariant
            i <= values.len(),
            forall|j: int| 0 <= j < i ==> values@[j] != x,
        decreases values.len() - i,
    {
        if values[i] == x {
            return true;
        }
        i = i + 1;
    }
    false
}

/// Sum of the decimal digits of `n`.
pub fn digit_sum(n: u32) -> (s: u32)
    ensures
        s == digit_sum_of(n as nat),
{
    proof {
        lemma_digit_sum_shrinks(n as nat);
    }
    let mut rest = n;
    let mut sum: u32 = 0;
    while rest > 0
        invariant
            sum + digit_sum_of(rest as nat) == digit_sum_of(n as nat),
            digit_sum_of(n as nat) <= n,
        decreases rest,
    {
        sum = sum + rest % 10;
        rest = rest / 10;
    }
    sum
}

/// Reduce `raw` to a single digit, stopping early on any value in `masters`.
pub fn reduce(raw: u32, masters: &[u32]) -> (cn: CalculatedNumber)
    ensures
        cn.is_reduction_of(raw, masters@),
{
    let mut steps: Vec<u32> = Vec::new();
    steps.push(raw);
    let mut cur = raw;
    while cur > 9 && !slice_contains(masters, cur)
        invariant
            steps@.len() >= 1,
            steps@.last() == cur,
            steps@ + reduction_steps(cur, masters@).drop_first() == reduction_steps(raw, masters@),
        decreases cur,
    {
        proof {
            lemma_digit_sum_shrinks(cur as nat);
        }
        let ghost before = steps@;
        let ghost old_cur = cur;
        cur = digit_sum(cur);
        steps.push(cur);
        proof {
            assert(reduction_steps(old_cur, masters@).drop_first() == reduction_steps(cur, masters@));
            assert(steps@ + reduction_steps(cur, masters@).drop_first() =~= before
                + reduction_steps(old_cur, masters@).drop_first());
        }
    }
    proof {
        assert(steps@ =~= reduction_steps(raw, masters@));
    }
    let is_master = cur > 9 && slice_contains(masters, cur);
    CalculatedNumber { raw, value: cur, is_master, steps }
}

/// Reduce `raw` all the way to a single digit (no master numbers preserved).
pub fn reduce_single(raw: u32) -> (cn: CalculatedNumber)
    ensures
        cn.is_reduction_of(raw, Seq::empty()),
        cn.value == digital_root(raw),
        !cn.is_master,
{
    let none: [u32; 0] = [];
    let cn = reduce(raw, &none);
    proof {
        assert(none@ =~= Seq::<u32>::empty());
    }
    cn
}



/// `10^k`.
pub open spec fn ten_pow(k: nat) -> nat
    decreases k,
{
    if k == 0 {
        1
    } else {
        10 * ten_pow((k - 1) as nat)
    }
}

/// A number below `10^k` has a digit sum of at most `9 * k`.
pub proof fn lemma_digit_sum_by_digits(n: nat, k: nat)
    requires
        n < ten_pow(k),
    ensures
        digit_sum_of(n) <= 9 * k,
    decreases k,
{
    if n > 0 {
        assert(k > 0);
        lemma_digit_sum_by_digits(n / 10, (k - 1) as nat);
    }
}

/// The digit sum of a `u32` is at most 90.
pub proof fn lemma_digit_sum_of_u32(n: u32)
    ensures
        digit_sum_of(n as nat) <= 90,
{
    reveal_with_fuel(ten_pow, 11);
    lemma_digit_sum_by_digits(n as nat, 10);
}

/// A reduction never ends above the largest master number (nor above 9).
pub proof fn lemma_reduced_at_most(n: u32, masters: Seq<u32>, bound: u32)
    requires
        bound >= 9,
        forall|i: int| 0 <= i < masters.len() ==> masters[i] <= bound,
    ensures
        reduced_value(n, masters) <= bound,
        reduced_value(n, masters) <= n,
{
    law_reduction_trail(n, masters);
}

/// Pythagorean reductions end at most on 33, cabalistic ones at most on 22.
pub proof fn lemma_reduced_bounds(n: u32)
    ensures
        reduced_value(n, PYTHAGOREAN_MASTERS@) <= 33,
        reduced_value(n, CABALISTIC_MASTERS@) <= 22,
        digital_root(n) <= 9,
{
    lemma_reduced_at_most(n, PYTHAGOREAN_MASTERS@, 33);
    lemma_reduced_at_most(n, CABALISTIC_MASTERS@, 22);
    lemma_reduced_at_most(n, Seq::empty(), 9);
}

/// Whether `n` is one of the karmic-debt compound numbers.
pub open spec fn is_karmic_debt(n: u32) -> bool {
    KARMIC_DEBTS@.contains(n)
}

/// The first value of `steps` that is a karmic debt, if any.
pub open spec fn first_debt(steps: Seq<u32>) -> Option<u32>
    decreases steps.len(),
{
    if steps.len() == 0 {
        None
    } else if is_karmic_debt(steps[0]) {
        Some(steps[0])
    } else {
        first_debt(steps.drop_first())
    }
}

/// The karmic debt a number carries, if its reduction passes through one.
pub fn debt_of(cn: &CalculatedNumber) -> (d: Option<u32>)
    ensures
        d == first_debt(cn.steps@),
{
    let debts = KARMIC_DEBTS;
    let mut i: usize = 0;
    proof {
        assert(cn.steps@.skip(0) =~= cn.steps@);
    }
    while i < cn.steps.len()
        invariant
            i <= cn.steps@.len(),
            first_debt(cn.steps@) == first_debt(cn.steps@.skip(i as int)),
            debts@ == KARMIC_DEBTS@,
        decreases cn.steps.len() - i,
    {
        let s = cn.steps[i];
        proof {
            assert(cn.steps@.skip(i as int).drop_first() =~= cn.steps@.skip(i + 1));
        }
        if slice_contains(&debts, s) {
            return Some(s);
        }
        i = i + 1;
    }
    proof {
        assert(cn.steps@.skip(i as int) =~= Seq::<u32>::empty());
    }
    None
}

/// A karmic debt detected at a named chart position.
#[derive(Clone, Debug, PartialEq, Eq)]
pub struct KarmicDebt {
    /// Human-readable name of the chart position carrying the debt.
    pub position: &'static str,
    /// The compound debt value (13, 14, 16 or 19).
    pub debt: u32,
}


/// What a list of karmic debts says: each position's label and its debt.
pub open spec fn debt_views(debts: Seq<KarmicDebt>) -> Seq<(Seq<char>, u32)> {
    debts.map_values(|k: KarmicDebt| (k.position@, k.debt))
}

/// The entry a position contributes to a list of karmic debts: its first
/// debt, if its reduction trail passes through one.
pub open spec fn debt_entry(position: Seq<char>, steps: Seq<u32>) -> Seq<(Seq<char>, u32)> {
    match first_debt(steps) {
        Some(d) => seq![(position, d)],
        None => Seq::empty(),
    }
}

/// Append the karmic debt of `cn`, if any, under the label `position`.
pub fn record_debt(debts: &mut Vec<KarmicDebt>, position: &'static str, cn: &CalculatedNumber)
    ensures
        debt_views(final(debts)@) == debt_views(old(debts)@) + debt_entry(position@, cn.steps@),
{
    if let Some(debt) = debt_of(cn) {
        let ghost before = debts@;
        debts.push(KarmicDebt { position, debt });
        proof {
            assert(debt_views(debts@) =~= debt_views(before) + debt_entry(position@, cn.steps@));
        }
    } else {
        proof {
            assert(debt_views(debts@) =~= debt_views(debts@) + debt_entry(position@, cn.steps@));
        }
    }
}

/// A karmic debt found while reducing `n` is one of the values visited.
pub proof fn law_first_debt_is_a_visited_debt(steps: Seq<u32>)
    ensures
        first_debt(steps) matches Some(d) ==> steps.contains(d) && is_karmic_debt(d),
        first_debt(steps) is None ==> forall|i: int| 0 <= i < steps.len() ==> !is_karmic_debt(#[trigger] steps[i]),
    decreases steps.len(),
{
    if steps.len() > 0 {
        law_first_debt_is_a_visited_debt(steps.drop_first());
        if !is_karmic_debt(steps[0]) {
            if let Some(d) = first_debt(steps) {
                let k = choose|k: int| 0 <= k < steps.drop_first().len() && steps.drop_first()[k] == d;
                assert(steps[k + 1] == d);
            } else {
                assert forall|i: int| 0 <= i < steps.len() implies !is_karmic_debt(#[trigger] steps[i]) by {
                    if i > 0 {
                        assert(steps[i] == steps.drop_first()[i - 1]);
                    }
                }
            }
        }
    }
}

/// Digit sums keep the remainder modulo 9.
pub proof fn lemma_digit_sum_mod_nine(n: nat)
    ensures
        digit_sum_of(n) % 9 == n % 9,
    decreases n,
{
    if n > 0 {
        lemma_digit_sum_mod_nine(n / 10);
        let q = n / 10;
        let r = n % 10;
        assert(n == 9 * q + (q + r));
        assert((9 * q + (q + r)) % 9 == (q + r) % 9) by {
            vstd::arithmetic::div_mod::lemma_mod_multiples_vanish(q as int, (q + r) as int, 9);
        }
        assert((q + r) % 9 == ((q % 9) + r) % 9) by {
            vstd::arithmetic::div_mod::lemma_add_mod_noop(q as int, r as int, 9);
            vstd::arithmetic::div_mod::lemma_add_mod_noop((q % 9) as int, r as int, 9);
            vstd::arithmetic::div_mod::lemma_mod_twice(q as int, 9);
        }
        assert((digit_sum_of(q) + r) % 9 == ((digit_sum_of(q) % 9) + r) % 9) by {
            vstd::arithmetic::div_mod::lemma_add_mod_noop(digit_sum_of(q) as int, r as int, 9);
            vstd::arithmetic::div_mod::lemma_add_mod_noop((digit_sum_of(q) % 9) as int, r as int, 9);
            vstd::arithmetic::div_mod::lemma_mod_twice(digit_sum_of(q) as int, 9);
        }
    }
}

/// Structure of every reduction trail: it starts with the raw total, each
/// step is the digit sum of the step before and strictly smaller, only the
/// last step stops, and the final value is a single digit or a master number
/// no larger than the raw total.
pub proof fn law_reduction_trail(n: u32, masters: Seq<u32>)
    ensures
        reduction_steps(n, masters).len() >= 1,
        reduction_steps(n, masters)[0] == n,
        forall|i: int| 0 <= i < reduction_steps(n, masters).len() - 1 ==> {
            &&& #[trigger] reduction_steps(n, masters)[i + 1] as nat == digit_sum_of(reduction_steps(n, masters)[i] as nat)
            &&& reduction_steps(n, masters)[i + 1] < reduction_steps(n, masters)[i]
            &&& !stops_at(reduction_steps(n, masters)[i], masters)
        },
        stops_at(reduced_value(n, masters), masters),
        reduced_value(n, masters) <= n,
    decreases n,
{
    if !stops_at(n, masters) {
        lemma_digit_sum_shrinks(n as nat);
        let next = digit_sum_of(n as nat) as u32;
        law_reduction_trail(next, masters);
        let tail = reduction_steps(next, masters);
        let all = reduction_steps(n, masters);
        assert(all == seq![n] + tail);
        assert forall|i: int| 0 <= i < all.len() - 1 implies {
            &&& #[trigger] all[i + 1] as nat == digit_sum_of(all[i] as nat)
            &&& all[i + 1] < all[i]
            &&& !stops_at(all[i], masters)
        } by {
            if i > 0 {
                let j = i - 1;
                assert(all[i] == tail[j]);
                assert(all[i + 1] == tail[j + 1]);
                assert(0 <= j < tail.len() - 1);
            } else {
                assert(all[0] == n);
                assert(all[1] == tail[0]);
            }
        }
    }
}

/// Reduction keeps the remainder modulo 9: master numbers or not, the
/// reduced value is congruent to the raw total.
pub proof fn law_reduction_keeps_residue(n: u32, masters: Seq<u32>)
    ensures
        reduced_value(n, masters) % 9 == n % 9,
    decreases n,
{
    if !stops_at(n, masters) {
        lemma_digit_sum_shrinks(n as nat);
        lemma_digit_sum_mod_nine(n as nat);
        law_reduction_keeps_residue(digit_sum_of(n as nat) as u32, masters);
    }
}

/// The digital root in closed form: 0 for 0, otherwise `1 + (n - 1) % 9`.
pub proof fn law_digital_root_closed_form(n: u32)
    ensures
        digital_root(n) == if n == 0 { 0 } else { 1 + (n - 1) % 9 },
        1 <= n ==> 1 <= digital_root(n) <= 9,
    decreases n,
{
    law_reduction_keeps_residue(n, Seq::empty());
    law_reduction_trail(n, Seq::empty());
    if !stops_at(n, Seq::empty()) {
        lemma_digit_sum_shrinks(n as nat);
        law_digital_root_closed_form(digit_sum_of(n as nat) as u32);
    }
}

} // verus!
