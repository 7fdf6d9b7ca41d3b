//! Inverted Life Triangle, arcana and negative sequences.
//!
//! The base row holds the cabalistic values of every letter of the name. Each
//! following row sums adjacent pairs (reduced to a single digit) until a single
//! apex value remains: the regent arcane. Adjacent pairs of the base row form
//! the dominant arcana (two-digit codes such as 31, 16, 63).

use vstd::prelude::*;

use crate::error::NumerologyError;
use crate::name::{letter_values, LetterValue, NameAnalysis};
use crate::reduction::{digital_root, law_digital_root_closed_form, lemma_reduced_bounds, reduce_single};
use crate::System;

verus! {

/// A two-digit arcane formed by a pair of adjacent base values.
#[derive(Clone, Copy, Debug, PartialEq, Eq, Structural)]
pub struct ArcaneCode(pub u8, pub u8);

impl ArcaneCode {
    /// The arcane as a two-digit code (e.g. `ArcaneCode(3, 1)` -> `31`).
    pub fn code(self) -> (c: u8)
        requires
            self.0 * 10 + self.1 <= 255,
        ensures
            c == self.0 * 10 + self.1,
    {
        self.0 * 10 + self.1
    }
}

/// A run of three or more identical values in a single row.
#[derive(Clone, Copy, Debug, PartialEq, Eq, Structural)]
pub struct NegativeSequence {
    /// Row index within the triangle.
    pub row: usize,
    /// Start column of the run.
    pub start: usize,
    /// The repeated digit.
    pub digit: u8,
    /// Length of the run.
    pub len: usize,
}

/// The full inverted Life Triangle for a name.
#[derive(Clone, Debug, PartialEq, Eq)]
pub struct LifeTriangle {
    /// Base row: cabalistic value of every letter.
    pub base: Vec<u8>,
    /// Dominant arcana from adjacent base pairs.
    pub arcana: Vec<ArcaneCode>,
    /// Every row of the triangle, from base to apex.
    pub rows: Vec<Vec<u8>>,
    /// The apex value (regent arcane).
    pub regent: u8,
    /// Any negative sequences (three or more equal values in a row).
    pub sequences: Vec<NegativeSequence>,
}

/// The row below `prev`: the digital root of each adjacent pair's sum.
pub open spec fn next_row(prev: Seq<u8>) -> Seq<u8> {
    Seq::new((prev.len() - 1) as nat, |i: int| digital_root((prev[i] + prev[i + 1]) as u32) as u8)
}

/// Every row of the triangle built on `base`, from the base down to a row of
/// at most one value.
pub open spec fn triangle_rows(base: Seq<u8>) -> Seq<Seq<u8>>
    decreases base.len(),
{
    if base.len() <= 1 {
        seq![base]
    } else {
        seq![base] + triangle_rows(next_row(base))
    }
}

/// The arcana of a base row: each pair of adjacent values.
pub open spec fn arcana_of(base: Seq<u8>) -> Seq<ArcaneCode> {
    Seq::new((base.len() - 1) as nat, |i: int| ArcaneCode(base[i], base[i + 1]))
}

/// The apex of the triangle built on `base`.
pub open spec fn regent_of(base: Seq<u8>) -> u8 {
    triangle_rows(base).last()[0]
}

/// The end of the run of values equal to `row[start]` that begins at `start`.
pub open spec fn run_end(row: Seq<u8>, start: int) -> int
    decreases row.len() - start,
{
    if start < 0 || start + 1 >= row.len() || row[start + 1] != row[start] {
        start + 1
    } else {
        run_end(row, start + 1)
    }
}

/// The runs of three or more equal values in `row` from `start` on, left to right.
pub open spec fn row_sequences(row_index: nat, row: Seq<u8>, start: int) -> Seq<NegativeSequence>
    decreases row.len() - start,
{
    if start < 0 || start >= row.len() {
        Seq::empty()
    } else {
        proof {
            lemma_run_end(row, start);
        }
        let end = run_end(row, start);
        let rest = row_sequences(row_index, row, end);
        if end - start >= 3 {
            seq![NegativeSequence { row: row_index as usize, start: start as usize, digit: row[start], len: (end - start) as usize }]
                + rest
        } else {
            rest
        }
    }
}

/// The runs of three or more equal values in every row, row by row.
pub open spec fn all_sequences(rows: Seq<Seq<u8>>) -> Seq<NegativeSequence>
    decreases rows.len(),
{
    if rows.len() == 0 {
        Seq::empty()
    } else {
        all_sequences(rows.drop_last()) + row_sequences((rows.len() - 1) as nat, rows.last(), 0)
    }
}

/// The rows of a triangle as sequences.
pub open spec fn rows_view(rows: Seq<Vec<u8>>) -> Seq<Seq<u8>> {
    rows.map_values(|r: Vec<u8>| r@)
}

impl LifeTriangle {
    /// This triangle is exactly the one built on `base`.
    pub open spec fn is_built_on(&self, base: Seq<u8>) -> bool {
        &&& self.base@ == base
        &&& self.arcana@ == arcana_of(base)
        &&& rows_view(self.rows@) == triangle_rows(base)
        &&& self.regent == regent_of(base)
        &&& self.sequences@ == all_sequences(triangle_rows(base))
    }

    /// The dominant arcane index for a raw index computed from age and life
    /// span: none when there are no arcana or the life span is 0, otherwise
    /// the raw index clamped to the last arcane.
    pub fn clamp_dominant_index(&self, life_span: u32, raw_index: usize) -> (i: Option<usize>)
        ensures
            i is None <==> (self.arcana@.len() == 0 || life_span == 0),
            i matches Some(k) ==> k == if raw_index < self.arcana@.len() {
                raw_index as int
            } else {
                self.arcana@.len() - 1
            },
    {
        if self.arcana.len() == 0 || life_span == 0 {
            return None;
        }
        let last = self.arcana.len() - 1;
        if raw_index < last {
            Some(raw_index)
        } else {
            Some(last)
        }
    }

    /// The arcane at `index`, if there is one.
    pub fn arcane_at(&self, index: Option<usize>) -> (a: Option<ArcaneCode>)
        ensures
            a is Some <==> (index matches Some(k) && k < self.arcana@.len()),
            a matches Some(code) ==> code == self.arcana@[index->0 as int],
    {
        match index {
            Some(k) => {
                if k < self.arcana.len() {
                    Some(self.arcana[k])
                } else {
                    None
                }
            },
            None => None,
        }
    }
}

/// The cabalistic letter values of a name, in order.
pub open spec fn name_base(name: Seq<char>) -> Seq<u8> {
    letter_values(name, System::Cabalistic).map_values(|l: LetterValue| l.value)
}

/// Build the Life Triangle for `name` using cabalistic letter values.
///
/// Fails with [`NumerologyError::EmptyName`] exactly when the name has fewer
/// than two usable letters.
pub fn life_triangle(name: &str) -> (r: Result<LifeTriangle, NumerologyError>)
    ensures
        r is Ok <==> name_base(name@).len() >= 2,
        r matches Ok(t) ==> t.is_built_on(name_base(name@)),
        r matches Err(e) ==> e == NumerologyError::EmptyName,
{
    let analysis = match NameAnalysis::new(name, System::Cabalistic) {
        Ok(a) => a,
        Err(e) => {
            proof {
                crate::name::lemma_letter_values_nonempty(name@, System::Cabalistic);
            }
            return Err(e);
        },
    };
    build(analysis.base_values())
}

/// One row below `prev`.
fn next_row_of(prev: &Vec<u8>) -> (next: Vec<u8>)
    requires
        prev@.len() >= 1,
    ensures
        next@ == next_row(prev@),
{
    let mut next: Vec<u8> = Vec::new();
    let mut i: usize = 0;
    while i < prev.len() - 1
        invariant
            prev@.len() >= 1,
            i <= prev@.len() - 1,
            next@ == next_row(prev@).take(i as int),
        decreases prev.len() - i,
    {
        let total = (prev[i] as u32) + (prev[i + 1] as u32);
        let cn = reduce_single(total);
        proof {
            lemma_reduced_bounds(total);
        }
        next.push(cn.value as u8);
        proof {
            assert(next@ =~= next_row(prev@).take(i + 1));
        }
        i = i + 1;
    }
    proof {
        assert(next@ =~= next_row(prev@));
    }
    next
}

/// Build the triangle on a base row of values.
///
/// Fails with [`NumerologyError::EmptyName`] exactly when the base holds
/// fewer than two values.
pub fn build(base: Vec<u8>) -> (r: Result<LifeTriangle, NumerologyError>)
    ensures
        r is Ok <==> base@.len() >= 2,
        r matches Ok(t) ==> t.is_built_on(base@),
        r matches Err(e) ==> e == NumerologyError::EmptyName,
{
    if base.len() < 2 {
        return Err(NumerologyError::EmptyName);
    }
    let mut arcana: Vec<ArcaneCode> = Vec::new();
    let mut i: usize = 0;
    while i + 1 < base.len()
        invariant
            base@.len() >= 2,
            i <= base@.len() - 1,
            arcana@ == arcana_of(base@).take(i as int),
        decreases base.len() - i,
    {
        arcana.push(ArcaneCode(base[i], base[i + 1]));
        proof {
            assert(arcana@ =~= arcana_of(base@).take(i + 1));
        }
        i = i + 1;
    }
    proof {
        assert(arcana@ =~= arcana_of(base@));
    }

    let mut rows: Vec<Vec<u8>> = Vec::new();
    let mut last = copy_row(&base);
    rows.push(copy_row(&base));
    proof {
        assert(rows_view(rows@) =~= seq![base@]);
    }
    while last.len() > 1
        invariant
            last@.len() >= 1,
            rows@.len() >= 1,
            rows_view(rows@) + triangle_rows(last@).drop_first() == triangle_rows(base@),
            rows@.last()@ == last@,
        decreases last.len(),
    {
        let next = next_row_of(&last);
        let ghost before = rows_view(rows@);
        proof {
            assert(triangle_rows(last@) == seq![last@] + triangle_rows(next@));
            assert(triangle_rows(last@).drop_first() =~= triangle_rows(next@));
        }
        rows.push(copy_row(&next));
        proof {
            assert(rows_view(rows@) =~= before.push(next@));
            assert(rows_view(rows@) + triangle_rows(next@).drop_first() =~= before + triangle_rows(next@));
        }
        last = next;
    }
    proof {
        assert(triangle_rows(last@).drop_first() =~= Seq::<Seq<u8>>::empty());
        assert(rows_view(rows@) =~= triangle_rows(base@));
        assert(rows_view(rows@).last() == last@);
    }
    let regent = last[0];
    let sequences = find_sequences(&rows);
    Ok(LifeTriangle { base, arcana, rows, regent, sequences })
}

/// A copy of a row of values.
fn copy_row(row: &Vec<u8>) -> (c: Vec<u8>)
    ensures
        c@ == row@,
{
    let mut c: Vec<u8> = Vec::new();
    let mut i: usize = 0;
    while i < row.len()
        invariant
            i <= row@.len(),
            c@ == row@.take(i as int),
        decreases row.len() - i,
    {
        c.push(row[i]);
        proof {
            assert(c@ =~= row@.take(i + 1));
        }
        i = i + 1;
    }
    proof {
        assert(c@ =~= row@);
    }
    c
}

/// Every run of three or more equal values, row by row.
fn find_sequences(rows: &Vec<Vec<u8>>) -> (s: Vec<NegativeSequence>)
    ensures
        s@ == all_sequences(rows_view(rows@)),
{
    let mut sequences: Vec<NegativeSequence> = Vec::new();
    let mut r: usize = 0;
    while r < rows.len()
        invariant
            r <= rows@.len(),
            sequences@ == all_sequences(rows_view(rows@).take(r as int)),
        decreases rows.len() - r,
    {
        let row = &rows[r];
        let ghost prior = sequences@;
        let mut start: usize = 0;
        proof {
            assert(rows_view(rows@).take(r + 1).drop_last() =~= rows_view(rows@).take(r as int));
            assert(rows_view(rows@).take(r + 1).last() == row@);
        }
        while start < row.len()
            invariant
                row@ == rows_view(rows@)[r as int],
                r < rows@.len(),
                start <= row@.len(),
                prior == all_sequences(rows_view(rows@).take(r as int)),
                sequences@ + row_sequences(r as nat, row@, start as int) == prior + row_sequences(
                    r as nat,
                    row@,
                    0,
                ),
            decreases row.len() - start,
        {
            let mut end = start + 1;
            while end < row.len() && row[end] == row[start]
                invariant
                    start < end <= row@.len(),
                    forall|k: int| start <= k < end ==> #[trigger] row@[k] == row@[start as int],
                decreases row.len() - end,
            {
                end = end + 1;
            }
            proof {
                lemma_run_end_unique(row@, start as int, end as int);
            }
            let ghost before = sequences@;
            if end - start >= 3 {
                sequences.push(NegativeSequence { row: r, start, digit: row[start], len: end - start });
                proof {
                    assert(sequences@ + row_sequences(r as nat, row@, end as int) =~= before + row_sequences(
                        r as nat,
                        row@,
                        start as int,
                    ));
                }
            }
            start = end;
        }
        proof {
            assert(row_sequences(r as nat, row@, start as int) =~= Seq::<NegativeSequence>::empty());
            assert(sequences@ =~= prior + row_sequences(r as nat, row@, 0));
        }
        r = r + 1;
    }
    proof {
        assert(rows_view(rows@).take(r as int) =~= rows_view(rows@));
    }
    sequences
}

/// A run ends after its start, within the row, on a different value (or the
/// row's end), and holds only values equal to its first.
pub proof fn lemma_run_end(row: Seq<u8>, start: int)
    requires
        0 <= start < row.len(),
    ensures
        start < run_end(row, start) <= row.len(),
        forall|k: int| start <= k < run_end(row, start) ==> #[trigger] row[k] == row[start],
        run_end(row, start) < row.len() ==> row[run_end(row, start)] != row[start],
    decreases row.len() - start,
{
    if start + 1 < row.len() && row[start + 1] == row[start] {
        lemma_run_end(row, start + 1);
    }
}

/// The run end is the only position with those properties.
pub proof fn lemma_run_end_unique(row: Seq<u8>, start: int, end: int)
    requires
        0 <= start < end <= row.len(),
        forall|k: int| start <= k < end ==> #[trigger] row[k] == row[start],
        end < row.len() ==> row[end] != row[start],
    ensures
        end == run_end(row, start),
{
    lemma_run_end(row, start);
    let e = run_end(row, start);
    if e < end {
        assert(row[e] == row[start]);
    } else if end < e {
        assert(row[end] == row[start]);
    }
}

/// Shape of the triangle: one row per base value, each row one shorter than
/// the row above, starting with the base and ending on a single value.
pub proof fn law_triangle_shape(base: Seq<u8>)
    requires
        base.len() >= 1,
    ensures
        triangle_rows(base).len() == base.len(),
        triangle_rows(base)[0] == base,
        forall|i: int| 0 <= i < base.len() ==> (#[trigger] triangle_rows(base)[i]).len() == base.len() - i,
        triangle_rows(base).last().len() == 1,
    decreases base.len(),
{
    if base.len() > 1 {
        let next = next_row(base);
        law_triangle_shape(next);
        let rows = triangle_rows(base);
        assert(rows == seq![base] + triangle_rows(next));
        assert forall|i: int| 0 <= i < base.len() implies (#[trigger] rows[i]).len() == base.len() - i by {
            if i > 0 {
                assert(rows[i] == triangle_rows(next)[i - 1]);
            }
        }
    }
}

/// Every row below the base holds digits only; the apex of a triangle of two
/// or more values is a digit, and it is 1 to 9 when every base value is positive.
pub proof fn law_regent_is_a_digit(base: Seq<u8>)
    requires
        base.len() >= 2,
    ensures
        regent_of(base) <= 9,
        (forall|i: int| 0 <= i < base.len() ==> #[trigger] base[i] >= 1) ==> 1 <= regent_of(base),
    decreases base.len(),
{
    let next = next_row(base);
    assert(forall|i: int| 0 <= i < next.len() ==> #[trigger] next[i] <= 9 && (base[i] + base[i + 1] >= 1 ==> next[i] >= 1)) by {
        assert forall|i: int| 0 <= i < next.len() implies #[trigger] next[i] <= 9 && (base[i] + base[i + 1] >= 1 ==> next[i] >= 1) by {
            law_digital_root_closed_form((base[i] + base[i + 1]) as u32);
        }
    }
    if next.len() >= 2 {
        law_regent_is_a_digit(next);
        assert(triangle_rows(base) == seq![base] + triangle_rows(next));
        assert(regent_of(base) == regent_of(next));
        if forall|i: int| 0 <= i < base.len() ==> #[trigger] base[i] >= 1 {
            assert forall|i: int| 0 <= i < next.len() implies #[trigger] next[i] >= 1 by {
                assert(base[i] >= 1);
            }
        }
    } else {
        assert(triangle_rows(next) == seq![next]);
        assert(triangle_rows(base) == seq![base] + seq![next]);
        assert(regent_of(base) == next[0]);
        if forall|i: int| 0 <= i < base.len() ==> #[trigger] base[i] >= 1 {
            assert(base[0] >= 1);
        }
    }
}

/// Every negative sequence reported for a row is a maximal run of three or
/// more equal values of that row.
pub proof fn law_row_sequences_are_maximal_runs(row_index: nat, row: Seq<u8>, start: int)
    requires
        0 <= start,
        row_index <= usize::MAX,
        row.len() <= usize::MAX,
    ensures
        forall|k: int| 0 <= k < row_sequences(row_index, row, start).len() ==> {
            let s = #[trigger] row_sequences(row_index, row, start)[k];
            &&& s.row == row_index
            &&& s.len >= 3
            &&& start <= s.start
            &&& s.start + s.len <= row.len()
            &&& forall|j: int| s.start <= j < s.start + s.len ==> #[trigger] row[j] == s.digit
            &&& (s.start > 0 && s.start > start ==> row[s.start - 1] != s.digit)
            &&& (s.start + s.len < row.len() ==> row[s.start + s.len] != s.digit)
        },
    decreases row.len() - start,
{
    if start < row.len() {
        lemma_run_end(row, start);
        let end = run_end(row, start);
        law_row_sequences_are_maximal_runs(row_index, row, end);
        let rest = row_sequences(row_index, row, end);
        let all = row_sequences(row_index, row, start);
        assert forall|k: int| 0 <= k < all.len() implies {
            let s = #[trigger] all[k];
            &&& s.row == row_index
            &&& s.len >= 3
            &&& start <= s.start
            &&& s.start + s.len <= row.len()
            &&& forall|j: int| s.start <= j < s.start + s.len ==> #[trigger] row[j] == s.digit
            &&& (s.start > 0 && s.start > start ==> row[s.start - 1] != s.digit)
            &&& (s.start + s.len < row.len() ==> row[s.start + s.len] != s.digit)
        } by {
            if end - start >= 3 {
                if k == 0 {
                } else {
                    assert(all[k] == rest[k - 1]);
                    let s = rest[k - 1];
                    if s.start > 0 && s.start == end {
                        assert(row[end - 1] == row[start]);
                        assert(row[end] != row[start]);
                    }
                }
            } else {
                assert(all[k] == rest[k]);
                let s = rest[k];
                if s.start > 0 && s.start == end {
                    assert(row[end - 1] == row[start]);
                    assert(row[end] != row[start]);
                }
            }
        }
    }
}

/// Whether `row` holds a maximal run of `len >= 3` equal values starting at
/// `start`: every value in it equals the first, and the values just before
/// and just after it (where there are any) differ from it.
pub open spec fn is_negative_run(row: Seq<u8>, start: int, len: int) -> bool {
    &&& 0 <= start
    &&& len >= 3
    &&& start + len <= row.len()
    &&& forall|j: int| start <= j < start + len ==> #[trigger] row[j] == row[start]
    &&& (start > 0 ==> row[start - 1] != row[start])
    &&& (start + len < row.len() ==> row[start + len] != row[start])
}

/// Scanning a row from `from` finds every maximal run that starts at or
/// after `from`.
proof fn lemma_row_sequences_complete(row_index: nat, row: Seq<u8>, from: int, start: int, len: int)
    requires
        0 <= from <= start,
        is_negative_run(row, start, len),
    ensures
        row_sequences(row_index, row, from).contains(
            NegativeSequence { row: row_index as usize, start: start as usize, digit: row[start], len: len as usize },
        ),
    decreases row.len() - from,
{
    let ns = NegativeSequence { row: row_index as usize, start: start as usize, digit: row[start], len: len as usize };
    lemma_run_end(row, from);
    let end = run_end(row, from);
    let rest = row_sequences(row_index, row, end);
    if start == from {
        lemma_run_end_unique(row, start, start + len);
        assert(row_sequences(row_index, row, from)[0] == ns);
    } else {
        if start < end {
            assert(row[start - 1] == row[from]);
            assert(row[start] == row[from]);
        }
        lemma_row_sequences_complete(row_index, row, end, start, len);
        let k = choose|k: int| 0 <= k < rest.len() && rest[k] == ns;
        if end - from >= 3 {
            assert(row_sequences(row_index, row, from)[k + 1] == ns);
        } else {
            assert(row_sequences(row_index, row, from)[k] == ns);
        }
    }
}

/// Every row's sequences are among the sequences of all rows.
proof fn lemma_all_sequences_hold_rows(rows: Seq<Seq<u8>>, r: int, x: NegativeSequence)
    requires
        0 <= r < rows.len(),
        row_sequences(r as nat, rows[r], 0).contains(x),
    ensures
        all_sequences(rows).contains(x),
    decreases rows.len(),
{
    let prev = rows.drop_last();
    let last = row_sequences((rows.len() - 1) as nat, rows.last(), 0);
    if r == rows.len() - 1 {
        let k = choose|k: int| 0 <= k < last.len() && last[k] == x;
        assert((all_sequences(prev) + last)[all_sequences(prev).len() + k] == x);
    } else {
        assert(prev[r] == rows[r]);
        lemma_all_sequences_hold_rows(prev, r, x);
        let k = choose|k: int| 0 <= k < all_sequences(prev).len() && all_sequences(prev)[k] == x;
        assert((all_sequences(prev) + last)[k] == x);
    }
}

/// Completeness of the negative sequences: every maximal run of three or
/// more equal values in any row of the triangle is reported, with its row,
/// start, digit and length.
pub proof fn law_every_negative_run_is_reported(base: Seq<u8>, r: int, start: int, len: int)
    requires
        1 <= base.len() <= usize::MAX,
        0 <= r < triangle_rows(base).len(),
        is_negative_run(triangle_rows(base)[r], start, len),
    ensures
        all_sequences(triangle_rows(base)).contains(
            NegativeSequence {
                row: r as usize,
                start: start as usize,
                digit: triangle_rows(base)[r][start],
                len: len as usize,
            },
        ),
{
    law_triangle_shape(base);
    lemma_row_sequences_complete(r as nat, triangle_rows(base)[r], 0, start, len);
    lemma_all_sequences_hold_rows(
        triangle_rows(base),
        r,
        NegativeSequence {
            row: r as usize,
            start: start as usize,
            digit: triangle_rows(base)[r][start],
            len: len as usize,
        },
    );
}

} // verus!
