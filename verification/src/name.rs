//! Parsing a full name into per-letter values for a given system.

use vstd::prelude::*;

use crate::alphabet::{decode, decode_of, is_vowel, is_vowel_letter, law_decoded_values_in_range, Accent, DecodedChar};
use crate::error::NumerologyError;
use crate::System;

verus! {

/// Longest name, in characters, whose letter sums are sure to fit in a `u32`
/// (every letter is worth at most 9).
pub const MAX_NAME_CHARS: usize = 477_218_588;

/// A single decoded letter of a name, with its computed value.
#[derive(Clone, Copy, Debug, PartialEq, Eq, Structural)]
pub struct LetterValue {
    /// The original character as written.
    pub original: char,
    /// Base letter in `A..=Z`.
    pub base: char,
    /// Accent on the letter, if any.
    pub accent: Option<Accent>,
    /// Whether this letter counts as a vowel.
    pub is_vowel: bool,
    /// Numeric value under the active system.
    pub value: u8,
}

/// One whitespace/hyphen separated word of a name.
#[derive(Clone, Debug, PartialEq, Eq)]
pub struct NameToken {
    /// The letters composing the word.
    pub letters: Vec<LetterValue>,
}

/// A full name decomposed into tokens and per-letter values.
#[derive(Clone, Debug, PartialEq, Eq)]
pub struct NameAnalysis {
    /// The system used to value the letters.
    pub system: System,
    /// Words of the name, in order.
    pub tokens: Vec<NameToken>,
}

/// Unicode `White_Space` characters, as `char::is_whitespace` documents them.
pub open spec fn is_white_space(c: char) -> bool {
    ||| c == ' '
    ||| '\t' <= c <= '\r'
    ||| c == '\u{85}'
    ||| c == '\u{a0}'
    ||| c == '\u{1680}'
    ||| '\u{2000}' <= c <= '\u{200a}'
    ||| c == '\u{2028}'
    ||| c == '\u{2029}'
    ||| c == '\u{202f}'
    ||| c == '\u{205f}'
    ||| c == '\u{3000}'
}

/// Characters that separate the words of a name: whitespace and hyphens.
pub open spec fn is_separator(c: char) -> bool {
    is_white_space(c) || c == '-'
}

/// The letter a decodable character contributes under `system`.
pub open spec fn letter_of(c: char, d: DecodedChar, system: System) -> LetterValue {
    LetterValue {
        original: c,
        base: d.base,
        accent: d.accent,
        is_vowel: is_vowel_letter(d.base) && !d.cedilla,
        value: system.value_of(d),
    }
}

/// The letters of `chars`, in order: every decodable character, valued under
/// `system`; everything else is skipped.
pub open spec fn letter_values(chars: Seq<char>, system: System) -> Seq<LetterValue>
    decreases chars.len(),
{
    if chars.len() == 0 {
        Seq::empty()
    } else {
        let rest = letter_values(chars.drop_last(), system);
        match decode_of(chars.last()) {
            Some(d) => rest.push(letter_of(chars.last(), d, system)),
            None => rest,
        }
    }
}

/// Reading `chars` left to right: the finished words and the word in progress.
/// A separator closes a non-empty word; a letter joins the current word.
pub open spec fn scan(chars: Seq<char>, system: System) -> (Seq<Seq<LetterValue>>, Seq<LetterValue>)
    decreases chars.len(),
{
    if chars.len() == 0 {
        (Seq::empty(), Seq::empty())
    } else {
        let (done, cur) = scan(chars.drop_last(), system);
        let c = chars.last();
        if is_separator(c) {
            if cur.len() > 0 {
                (done.push(cur), Seq::empty())
            } else {
                (done, cur)
            }
        } else {
            match decode_of(c) {
                Some(d) => (done, cur.push(letter_of(c, d, system))),
                None => (done, cur),
            }
        }
    }
}

/// The words of a name: maximal runs between separators, each holding the
/// letters of its run, with words that hold no letter left out.
pub open spec fn name_tokens(chars: Seq<char>, system: System) -> Seq<Seq<LetterValue>> {
    let (done, cur) = scan(chars, system);
    if cur.len() > 0 {
        done.push(cur)
    } else {
        done
    }
}

/// All letters of a list of words, in order.
pub open spec fn flatten_words(words: Seq<Seq<LetterValue>>) -> Seq<LetterValue>
    decreases words.len(),
{
    if words.len() == 0 {
        Seq::empty()
    } else {
        flatten_words(words.drop_last()) + words.last()
    }
}

/// Sum of the values of the letters that `keep` selects.
pub open spec fn value_sum(s: Seq<LetterValue>, keep: spec_fn(LetterValue) -> bool) -> nat
    decreases s.len(),
{
    if s.len() == 0 {
        0
    } else {
        value_sum(s.drop_last(), keep) + if keep(s.last()) {
            s.last().value as nat
        } else {
            0
        }
    }
}

/// Selects every letter.
pub open spec fn any_letter() -> spec_fn(LetterValue) -> bool {
    |l: LetterValue| true
}

/// Selects vowels.
pub open spec fn vowel_letter() -> spec_fn(LetterValue) -> bool {
    |l: LetterValue| l.is_vowel
}

/// Selects consonants.
pub open spec fn consonant_letter() -> spec_fn(LetterValue) -> bool {
    |l: LetterValue| !l.is_vowel
}

/// Sum of the first letter of each word.
pub open spec fn initials_of(words: Seq<Seq<LetterValue>>) -> nat
    decreases words.len(),
{
    if words.len() == 0 {
        0
    } else {
        initials_of(words.drop_last()) + if words.last().len() > 0 {
            words.last()[0].value as nat
        } else {
            0
        }
    }
}

/// How many letters of `s` are worth `v`.
pub open spec fn count_value(s: Seq<LetterValue>, v: nat) -> nat
    decreases s.len(),
{
    if s.len() == 0 {
        0
    } else {
        count_value(s.drop_last(), v) + if s.last().value as nat == v {
            1nat
        } else {
            0
        }
    }
}

/// Every letter of `s` is worth a digit from 1 to 9.
pub open spec fn values_are_digits(s: Seq<LetterValue>) -> bool {
    forall|i: int| 0 <= i < s.len() ==> 1 <= #[trigger] s[i].value <= 9
}

/// Whether a name holds at least one usable letter.
pub open spec fn has_letters(name: Seq<char>) -> bool {
    exists|i: int| 0 <= i < name.len() && (#[trigger] decode_of(name[i])) is Some
}

/// Total of every letter of a name under `system`.
pub open spec fn name_total(name: Seq<char>, system: System) -> nat {
    value_sum(letter_values(name, system), any_letter())
}

/// Total of the vowels of a name under `system`.
pub open spec fn name_vowels(name: Seq<char>, system: System) -> nat {
    value_sum(letter_values(name, system), vowel_letter())
}

/// Total of the consonants of a name under `system`.
pub open spec fn name_consonants(name: Seq<char>, system: System) -> nat {
    value_sum(letter_values(name, system), consonant_letter())
}

/// Total of the first letter of each word of a name under `system`.
pub open spec fn name_initials(name: Seq<char>, system: System) -> nat {
    initials_of(name_tokens(name, system))
}

/// How many letters of a name are worth each digit `0..=9`.
pub open spec fn name_frequency(name: Seq<char>, system: System) -> Seq<u32> {
    Seq::new(10, |d: int| count_value(letter_values(name, system), d as nat) as u32)
}

impl NameAnalysis {
    /// The words of the analysis as sequences of letters.
    pub open spec fn words(&self) -> Seq<Seq<LetterValue>> {
        self.tokens@.map_values(|t: NameToken| t.letters@)
    }

    /// All letters of the analysis, in order.
    pub open spec fn all_letters(&self) -> Seq<LetterValue> {
        flatten_words(self.words())
    }

    /// A well-formed analysis: no empty word, and every letter worth a digit
    /// from 1 to 9.
    pub open spec fn wf(&self) -> bool {
        &&& forall|i: int| 0 <= i < self.words().len() ==> #[trigger] self.words()[i].len() > 0
        &&& values_are_digits(self.all_letters())
    }

    /// Build an analysis from a name under `system`.
    ///
    /// Fails with [`NumerologyError::EmptyName`] exactly when the name has no
    /// usable letters.
    pub fn new(name: &str, system: System) -> (r: Result<Self, NumerologyError>)
        ensures
            r is Ok <==> has_letters(name@),
            r matches Ok(a) ==> {
                &&& a.system == system
                &&& a.words() == name_tokens(name@, system)
                &&& a.all_letters() == letter_values(name@, system)
                &&& a.wf()
            },
            r matches Err(e) ==> e == NumerologyError::EmptyName,
    {
        let mut tokens: Vec<NameToken> = Vec::new();
        let mut letters: Vec<LetterValue> = Vec::new();
        for ch in it: name.chars()
            invariant
                it.seq() == name@,
                (tokens@.map_values(|t: NameToken| t.letters@), letters@) == scan(
                    name@.take(it.index() as int),
                    system,
                ),
        {
            let ghost prefix = name@.take(it.index() as int);
            proof {
                assert(name@.take(it.index() + 1).drop_last() =~= prefix);
                assert(name@.take(it.index() + 1).last() == ch);
            }
            if is_separator_char(ch) {
                if letters.len() > 0 {
                    let ghost before = tokens@.map_values(|t: NameToken| t.letters@);
                    let mut word: Vec<LetterValue> = Vec::new();
                    std::mem::swap(&mut word, &mut letters);
                    tokens.push(NameToken { letters: word });
                    proof {
                        assert(tokens@.map_values(|t: NameToken| t.letters@) =~= before.push(word@));
                    }
                }
            } else {
                match decode(ch) {
                    Some(d) => {
                        proof {
                            law_decoded_values_in_range(ch);
                        }
                        let value = system.letter_value(&d);
                        letters.push(
                            LetterValue {
                                original: ch,
                                base: d.base,
                                accent: d.accent,
                                is_vowel: is_vowel(d.base) && !d.cedilla,
                                value,
                            },
                        );
                    },
                    None => {},
                }
            }
        }
        proof {
            assert(name@.take(name@.len() as int) =~= name@);
        }
        if letters.len() > 0 {
            let ghost before = tokens@.map_values(|t: NameToken| t.letters@);
            tokens.push(NameToken { letters });
            proof {
                assert(tokens@.map_values(|t: NameToken| t.letters@) =~= before.push(letters@));
            }
        }
        proof {
            lemma_scan_facts(name@, system);
            lemma_letter_values_bounds(name@, system);
        }
        if tokens.len() == 0 {
            return Err(NumerologyError::EmptyName);
        }
        Ok(NameAnalysis { system, tokens })
    }

    /// Every letter of the name, across all tokens, in order.
    pub fn letters(&self) -> (v: Vec<LetterValue>)
        ensures
            v@ == self.all_letters(),
    {
        let mut v: Vec<LetterValue> = Vec::new();
        let mut i: usize = 0;
        while i < self.tokens.len()
            invariant
                i <= self.tokens@.len(),
                v@ == flatten_words(self.words().take(i as int)),
            decreases self.tokens.len() - i,
        {
            let word = &self.tokens[i].letters;
            let mut j: usize = 0;
            while j < word.len()
                invariant
                    i < self.tokens@.len(),
                    word@ == self.words()[i as int],
                    j <= word@.len(),
                    v@ == flatten_words(self.words().take(i as int)) + word@.take(j as int),
                decreases word.len() - j,
            {
                v.push(word[j]);
                proof {
                    assert(word@.take(j + 1) =~= word@.take(j as int).push(word@[j as int]));
                }
                j = j + 1;
            }
            proof {
                assert(self.words().take(i + 1).drop_last() =~= self.words().take(i as int));
                assert(word@.take(j as int) =~= word@);
            }
            i = i + 1;
        }
        proof {
            assert(self.words().take(i as int) =~= self.words());
        }
        v
    }

    /// Sum of all letter values.
    pub fn total_sum(&self) -> (s: u32)
        requires
            value_sum(self.all_letters(), any_letter()) <= u32::MAX,
        ensures
            s == value_sum(self.all_letters(), any_letter()),
    {
        let letters = self.letters();
        proof {
            assert(selector(0) == any_letter());
        }
        sum_selected(&letters, 0)
    }

    /// Sum of vowel values.
    pub fn vowel_sum(&self) -> (s: u32)
        requires
            value_sum(self.all_letters(), vowel_letter()) <= u32::MAX,
        ensures
            s == value_sum(self.all_letters(), vowel_letter()),
    {
        let letters = self.letters();
        proof {
            assert(selector(1) == vowel_letter());
        }
        sum_selected(&letters, 1)
    }

    /// Sum of consonant values.
    pub fn consonant_sum(&self) -> (s: u32)
        requires
            value_sum(self.all_letters(), consonant_letter()) <= u32::MAX,
        ensures
            s == value_sum(self.all_letters(), consonant_letter()),
    {
        let letters = self.letters();
        proof {
            assert(selector(2) == consonant_letter());
        }
        sum_selected(&letters, 2)
    }

    /// Sum of the first letter value of each word (used for hidden talent).
    pub fn initials_sum(&self) -> (s: u32)
        requires
            initials_of(self.words()) <= u32::MAX,
        ensures
            s == initials_of(self.words()),
    {
        let mut sum: u32 = 0;
        let mut i: usize = 0;
        while i < self.tokens.len()
            invariant
                initials_of(self.words()) <= u32::MAX,
                i <= self.tokens@.len(),
                sum == initials_of(self.words().take(i as int)),
            decreases self.tokens.len() - i,
        {
            proof {
                assert(self.words().take(i + 1).drop_last() =~= self.words().take(i as int));
                assert(self.words().take(i + 1).last() == self.words()[i as int]);
                lemma_initials_prefix(self.words(), i + 1);
            }
            if self.tokens[i].letters.len() > 0 {
                sum = sum + self.tokens[i].letters[0].value as u32;
            }
            i = i + 1;
        }
        proof {
            assert(self.words().take(i as int) =~= self.words());
        }
        sum
    }

    /// Count of how many times each digit `0..=9` appears as a letter value.
    pub fn digit_frequency(&self) -> (freq: [u32; 10])
        requires
            forall|d: nat| d < 10 ==> #[trigger] count_value(self.all_letters(), d) <= u32::MAX,
        ensures
            forall|d: int| 0 <= d < 10 ==> #[trigger] freq@[d] == count_value(self.all_letters(), d as nat),
    {
        let letters = self.letters();
        let mut freq = [0u32; 10];
        let mut i: usize = 0;
        while i < letters.len()
            invariant
                letters@ == self.all_letters(),
                forall|d: nat| d < 10 ==> #[trigger] count_value(letters@, d) <= u32::MAX,
                i <= letters@.len(),
                freq@.len() == 10,
                forall|d: int| 0 <= d < 10 ==> #[trigger] freq@[d] == count_value(letters@.take(i as int), d as nat),
            decreases letters.len() - i,
        {
            let v = letters[i].value as usize;
            proof {
                assert(letters@.take(i + 1).drop_last() =~= letters@.take(i as int));
                assert(letters@.take(i + 1).last() == letters@[i as int]);
                if v <= 9 {
                    lemma_count_prefix(letters@, i + 1, v as nat);
                    assert(count_value(letters@, v as nat) <= u32::MAX);
                }
            }
            if v <= 9 {
                freq[v] = freq[v] + 1;
            }
            i = i + 1;
        }
        proof {
            assert(letters@.take(i as int) =~= letters@);
        }
        freq
    }

    /// All letter values in order (used to build the Life Triangle).
    pub fn base_values(&self) -> (v: Vec<u8>)
        ensures
            v@ == self.all_letters().map_values(|l: LetterValue| l.value),
    {
        let letters = self.letters();
        let mut v: Vec<u8> = Vec::new();
        let mut i: usize = 0;
        while i < letters.len()
            invariant
                letters@ == self.all_letters(),
                i <= letters@.len(),
                v@ == letters@.take(i as int).map_values(|l: LetterValue| l.value),
            decreases letters.len() - i,
        {
            v.push(letters[i].value);
            proof {
                assert(letters@.take(i + 1).map_values(|l: LetterValue| l.value) =~= letters@.take(
                    i as int,
                ).map_values(|l: LetterValue| l.value).push(letters@[i as int].value));
            }
            i = i + 1;
        }
        proof {
            assert(letters@.take(i as int) =~= letters@);
        }
        v
    }
}


/// The digits `d` in `1..=k` for which `freq[d]` equals `c`, ascending.
pub open spec fn digits_with_count(freq: Seq<u32>, k: nat, c: u32) -> Seq<u8>
    decreases k,
{
    if k == 0 {
        Seq::empty()
    } else {
        let rest = digits_with_count(freq, (k - 1) as nat, c);
        if freq[k as int] == c {
            rest.push(k as u8)
        } else {
            rest
        }
    }
}

/// The largest of `freq[1..=k]` (0 when `k` is 0).
pub open spec fn max_count_upto(freq: Seq<u32>, k: nat) -> u32
    decreases k,
{
    if k == 0 {
        0
    } else {
        let rest = max_count_upto(freq, (k - 1) as nat);
        if freq[k as int] > rest {
            freq[k as int]
        } else {
            rest
        }
    }
}

/// How many digits `d` in `1..=k` have `freq[d] > 0`.
pub open spec fn present_upto(freq: Seq<u32>, k: nat) -> nat
    decreases k,
{
    if k == 0 {
        0
    } else {
        present_upto(freq, (k - 1) as nat) + if freq[k as int] > 0 {
            1nat
        } else {
            0
        }
    }
}

/// The digits of `1..=9` that occur most often, ascending; none when no digit occurs.
pub open spec fn most_frequent_of(freq: Seq<u32>) -> Seq<u8> {
    if max_count_upto(freq, 9) == 0 {
        Seq::empty()
    } else {
        digits_with_count(freq, 9, max_count_upto(freq, 9))
    }
}

/// Digits in `1..=max` that never appear in the frequency table.
pub fn missing_digits(freq: &[u32; 10], max: u8) -> (v: Vec<u8>)
    requires
        max <= 9,
    ensures
        v@ == digits_with_count(freq@, max as nat, 0),
{
    let mut v: Vec<u8> = Vec::new();
    let mut d: u8 = 1;
    while d <= max
        invariant
            1 <= d <= max + 1,
            max <= 9,
            v@ == digits_with_count(freq@, (d - 1) as nat, 0),
        decreases max + 1 - d,
    {
        if freq[d as usize] == 0 {
            v.push(d);
        }
        d = d + 1;
    }
    v
}

/// Digits in `1..=9` that appear most often (empty if none appear).
pub fn most_frequent(freq: &[u32; 10]) -> (v: Vec<u8>)
    ensures
        v@ == most_frequent_of(freq@),
{
    let mut max: u32 = 0;
    let mut d: usize = 1;
    while d <= 9
        invariant
            1 <= d <= 10,
            max == max_count_upto(freq@, (d - 1) as nat),
        decreases 10 - d,
    {
        if freq[d] > max {
            max = freq[d];
        }
        d = d + 1;
    }
    let mut v: Vec<u8> = Vec::new();
    if max == 0 {
        return v;
    }
    let mut d: u8 = 1;
    while d <= 9
        invariant
            1 <= d <= 10,
            max == max_count_upto(freq@, 9),
            v@ == digits_with_count(freq@, (d - 1) as nat, max),
        decreases 10 - d,
    {
        if freq[d as usize] == max {
            v.push(d);
        }
        d = d + 1;
    }
    v
}

/// Count of distinct digits in `1..=9` present in the frequency table.
pub fn distinct_present(freq: &[u32; 10]) -> (n: u32)
    ensures
        n == present_upto(freq@, 9),
{
    let mut n: u32 = 0;
    let mut d: usize = 1;
    while d <= 9
        invariant
            1 <= d <= 10,
            n == present_upto(freq@, (d - 1) as nat),
            n < d,
        decreases 10 - d,
    {
        if freq[d] > 0 {
            n = n + 1;
        }
        d = d + 1;
    }
    n
}

/// Membership in `digits_with_count`: exactly the digits in range with that count.
pub proof fn lemma_digits_with_count_members(freq: Seq<u32>, k: nat, c: u32)
    requires
        k <= 9,
        freq.len() == 10,
    ensures
        forall|x: u8| #[trigger] digits_with_count(freq, k, c).contains(x) <==> (1 <= x <= k && freq[x as int] == c),
        digits_with_count(freq, k, c).no_duplicates(),
        forall|i: int| 0 <= i < digits_with_count(freq, k, c).len() ==> 1 <= #[trigger] digits_with_count(freq, k, c)[i] <= k,
    decreases k,
{
    if k > 0 {
        lemma_digits_with_count_members(freq, (k - 1) as nat, c);
        let rest = digits_with_count(freq, (k - 1) as nat, c);
        if freq[k as int] == c {
            let all = rest.push(k as u8);
            assert forall|x: u8| #[trigger] all.contains(x) <==> (1 <= x <= k && freq[x as int] == c) by {
                if all.contains(x) {
                    let i = choose|i: int| 0 <= i < all.len() && #[trigger] all[i] == x;
                    if i < rest.len() {
                        assert(rest[i] == x);
                        assert(rest.contains(x));
                    }
                }
                if 1 <= x <= k && freq[x as int] == c {
                    if x < k {
                        assert(rest.contains(x));
                        let i = choose|i: int| 0 <= i < rest.len() && #[trigger] rest[i] == x;
                        assert(all[i] == x);
                    } else {
                        assert(all[rest.len() as int] == x);
                    }
                }
            }
            assert forall|i: int, j: int| 0 <= i < all.len() && 0 <= j < all.len() && i != j
                implies #[trigger] all[i] != #[trigger] all[j] by {
                if i < rest.len() && j < rest.len() {
                } else if i < rest.len() {
                    assert(rest[i] <= k - 1);
                } else {
                    assert(rest[j] <= k - 1);
                }
            }
        }
    }
}

/// Karmic lessons and present digits split `1..=9`: each digit is either
/// missing or present, so their counts add up to nine.
pub proof fn law_missing_and_present_split_digits(freq: Seq<u32>, k: nat)
    requires
        k <= 9,
        freq.len() == 10,
    ensures
        present_upto(freq, k) + digits_with_count(freq, k, 0).len() == k,
    decreases k,
{
    if k > 0 {
        law_missing_and_present_split_digits(freq, (k - 1) as nat);
    }
}

/// `max_count_upto` is the largest count among the digits `1..=k`, and some
/// digit reaches it when `k > 0`.
pub proof fn lemma_max_count(freq: Seq<u32>, k: nat)
    requires
        k <= 9,
        freq.len() == 10,
    ensures
        forall|d: int| 1 <= d <= k ==> #[trigger] freq[d] <= max_count_upto(freq, k),
        k > 0 ==> exists|d: int| 1 <= d <= k && #[trigger] freq[d] == max_count_upto(freq, k),
    decreases k,
{
    if k > 0 {
        lemma_max_count(freq, (k - 1) as nat);
        if k > 1 {
            let d = choose|d: int| 1 <= d <= k - 1 && #[trigger] freq[d] == max_count_upto(freq, (k - 1) as nat);
            assert(freq[d] == max_count_upto(freq, (k - 1) as nat));
        }
        assert(freq[k as int] <= max_count_upto(freq, k));
    }
}

/// The most frequent digits: each listed digit occurs as often as any digit
/// of `1..=9`, every digit that occurs that often is listed, and the list is
/// empty exactly when no digit of `1..=9` occurs.
pub proof fn law_most_frequent(freq: Seq<u32>)
    requires
        freq.len() == 10,
    ensures
        most_frequent_of(freq).len() == 0 <==> forall|d: int| 1 <= d <= 9 ==> #[trigger] freq[d] == 0,
        forall|x: u8, e: int| #![trigger most_frequent_of(freq).contains(x), freq[e]]
            most_frequent_of(freq).contains(x) && 1 <= e <= 9 ==> freq[e] <= freq[x as int],
        forall|x: u8| 1 <= x <= 9 && freq[x as int] > 0 && freq[x as int] == max_count_upto(freq, 9)
            ==> #[trigger] most_frequent_of(freq).contains(x),
        forall|x: u8| #[trigger] most_frequent_of(freq).contains(x) ==> 1 <= x <= 9 && freq[x as int] > 0,
{
    lemma_max_count(freq, 9);
    lemma_digits_with_count_members(freq, 9, max_count_upto(freq, 9));
    let m = max_count_upto(freq, 9);
    if m != 0 {
        let d = choose|d: int| 1 <= d <= 9 && #[trigger] freq[d] == m;
        assert(digits_with_count(freq, 9, m).contains(d as u8));
        assert(freq[d] != 0);
    }
}


/// The total of a name is always its vowels plus its consonants.
pub proof fn law_total_is_vowels_plus_consonants(s: Seq<LetterValue>)
    ensures
        value_sum(s, any_letter()) == value_sum(s, vowel_letter()) + value_sum(s, consonant_letter()),
    decreases s.len(),
{
    if s.len() > 0 {
        law_total_is_vowels_plus_consonants(s.drop_last());
    }
}

/// Sum of `count_value(s, d)` over the digits `d < k`.
pub open spec fn counted_upto(s: Seq<LetterValue>, k: nat) -> nat
    decreases k,
{
    if k == 0 {
        0
    } else {
        counted_upto(s, (k - 1) as nat) + count_value(s, (k - 1) as nat)
    }
}

/// The digit frequencies of digit-valued letters add up to the number of letters.
pub proof fn law_frequencies_count_every_letter(s: Seq<LetterValue>)
    requires
        values_are_digits(s),
    ensures
        counted_upto(s, 10) == s.len(),
    decreases s.len(),
{
    if s.len() > 0 {
        let p = s.drop_last();
        assert(values_are_digits(p)) by {
            assert forall|i: int| 0 <= i < p.len() implies 1 <= #[trigger] p[i].value <= 9 by {
                assert(p[i] == s[i]);
            }
        }
        law_frequencies_count_every_letter(p);
        let v = s.last().value as nat;
        assert(s.last() == s[s.len() - 1]);
        assert(s[s.len() - 1].value <= 9);
        lemma_counted_step(s, v, 10);
    } else {
        lemma_counted_empty(s, 10);
    }
}

/// No letter, no count.
proof fn lemma_counted_empty(s: Seq<LetterValue>, k: nat)
    requires
        s.len() == 0,
    ensures
        counted_upto(s, k) == 0,
    decreases k,
{
    if k > 0 {
        lemma_counted_empty(s, (k - 1) as nat);
    }
}

/// Adding one letter worth `v < k` adds one to the counts below `k`.
proof fn lemma_counted_step(s: Seq<LetterValue>, v: nat, k: nat)
    requires
        s.len() > 0,
        v == s.last().value as nat,
        k <= 10,
    ensures
        counted_upto(s, k) == counted_upto(s.drop_last(), k) + if v < k { 1nat } else { 0 },
    decreases k,
{
    if k > 0 {
        lemma_counted_step(s, v, (k - 1) as nat);
    }
}

/// Whether `c` separates the words of a name.
pub fn is_separator_char(c: char) -> (r: bool)
    ensures
        r == is_separator(c),
{
    c == ' ' || ('\t' <= c && c <= '\r') || c == '\u{85}' || c == '\u{a0}' || c == '\u{1680}' || (
    '\u{2000}' <= c && c <= '\u{200a}') || c == '\u{2028}' || c == '\u{2029}' || c == '\u{202f}'
        || c == '\u{205f}' || c == '\u{3000}' || c == '-'
}

/// Sum of the values of `letters`: all of them (`which == 0`), the vowels
/// (`which == 1`) or the consonants (otherwise).
fn sum_selected(letters: &Vec<LetterValue>, which: u8) -> (s: u32)
    requires
        value_sum(letters@, selector(which)) <= u32::MAX,
    ensures
        s == value_sum(letters@, selector(which)),
{
    let ghost keep = selector(which);
    let mut sum: u32 = 0;
    let mut i: usize = 0;
    while i < letters.len()
        invariant
            i <= letters@.len(),
            keep == selector(which),
            value_sum(letters@, keep) <= u32::MAX,
            sum == value_sum(letters@.take(i as int), keep),
        decreases letters.len() - i,
    {
        let l = letters[i];
        proof {
            assert(letters@.take(i + 1).drop_last() =~= letters@.take(i as int));
            assert(letters@.take(i + 1).last() == l);
            lemma_value_sum_prefix(letters@, i + 1, keep);
        }
        let selected = if which == 0 {
            true
        } else if which == 1 {
            l.is_vowel
        } else {
            !l.is_vowel
        };
        if selected {
            sum = sum + l.value as u32;
        }
        i = i + 1;
    }
    proof {
        assert(letters@.take(i as int) =~= letters@);
    }
    sum
}

/// The letters `sum_selected` adds for `which`.
pub open spec fn selector(which: u8) -> spec_fn(LetterValue) -> bool {
    if which == 0 {
        any_letter()
    } else if which == 1 {
        vowel_letter()
    } else {
        consonant_letter()
    }
}

/// A prefix never sums to more than the whole.
pub proof fn lemma_value_sum_prefix(s: Seq<LetterValue>, i: int, keep: spec_fn(LetterValue) -> bool)
    requires
        0 <= i <= s.len(),
    ensures
        value_sum(s.take(i), keep) <= value_sum(s, keep),
    decreases s.len(),
{
    if i < s.len() {
        assert(s.drop_last().take(i) =~= s.take(i));
        lemma_value_sum_prefix(s.drop_last(), i, keep);
    } else {
        assert(s.take(i) =~= s);
    }
}

/// A prefix never counts more than the whole.
pub proof fn lemma_count_prefix(s: Seq<LetterValue>, i: int, v: nat)
    requires
        0 <= i <= s.len(),
    ensures
        count_value(s.take(i), v) <= count_value(s, v),
    decreases s.len(),
{
    if i < s.len() {
        assert(s.drop_last().take(i) =~= s.take(i));
        lemma_count_prefix(s.drop_last(), i, v);
    } else {
        assert(s.take(i) =~= s);
    }
}

/// The initials of the first words never sum to more than those of all words.
pub proof fn lemma_initials_prefix(words: Seq<Seq<LetterValue>>, i: int)
    requires
        0 <= i <= words.len(),
    ensures
        initials_of(words.take(i)) <= initials_of(words),
    decreases words.len(),
{
    if i < words.len() {
        assert(words.drop_last().take(i) =~= words.take(i));
        lemma_initials_prefix(words.drop_last(), i);
    } else {
        assert(words.take(i) =~= words);
    }
}

/// What `scan` keeps: the finished words and the word in progress hold,
/// together and in order, exactly the letters of the text; no finished word
/// is empty; and there is a word exactly when the text holds a letter.
pub proof fn lemma_scan_invariant(chars: Seq<char>, system: System)
    ensures
        flatten_words(scan(chars, system).0) + scan(chars, system).1 == letter_values(chars, system),
        forall|i: int| 0 <= i < scan(chars, system).0.len() ==> #[trigger] scan(chars, system).0[i].len() > 0,
        (scan(chars, system).0.len() > 0 || scan(chars, system).1.len() > 0) <==> has_letters(chars),
    decreases chars.len(),
{
    if chars.len() > 0 {
        let prev = chars.drop_last();
        lemma_scan_invariant(prev, system);
        let (done, cur) = scan(prev, system);
        let c = chars.last();
        if is_separator(c) {
            assert(decode_of(c) is None);
            if cur.len() > 0 {
                assert(done.push(cur).drop_last() =~= done);
                assert(flatten_words(done.push(cur)) + Seq::<LetterValue>::empty() =~= flatten_words(done) + cur);
            }
        } else if let Some(d) = decode_of(c) {
            assert(flatten_words(done) + cur.push(letter_of(c, d, system)) =~= (flatten_words(done) + cur).push(
                letter_of(c, d, system),
            ));
        }
        lemma_has_letters_last(chars);
    }
}


/// A text has letters exactly when it holds a decodable character.
pub proof fn lemma_letter_values_nonempty(chars: Seq<char>, system: System)
    ensures
        letter_values(chars, system).len() > 0 <==> has_letters(chars),
    decreases chars.len(),
{
    if chars.len() > 0 {
        lemma_letter_values_nonempty(chars.drop_last(), system);
        lemma_has_letters_last(chars);
    } else {
        assert(!has_letters(chars));
    }
}

/// A text holds a letter exactly when its prefix does or its last character decodes.
pub proof fn lemma_has_letters_last(chars: Seq<char>)
    requires
        chars.len() > 0,
    ensures
        has_letters(chars) <==> (has_letters(chars.drop_last()) || decode_of(chars.last()) is Some),
{
    let prev = chars.drop_last();
    if has_letters(chars) {
        let i = choose|i: int| 0 <= i < chars.len() && (#[trigger] decode_of(chars[i])) is Some;
        if i < chars.len() - 1 {
            assert(decode_of(prev[i]) is Some);
        }
    }
    if has_letters(prev) {
        let i = choose|i: int| 0 <= i < prev.len() && (#[trigger] decode_of(prev[i])) is Some;
        assert(decode_of(chars[i]) is Some);
    }
    if decode_of(chars.last()) is Some {
        assert(decode_of(chars[chars.len() - 1]) is Some);
    }
}

/// The words of a name hold exactly its letters, in order; none is empty; and
/// there is at least one word exactly when the name holds a letter.
pub proof fn lemma_scan_facts(chars: Seq<char>, system: System)
    ensures
        flatten_words(name_tokens(chars, system)) == letter_values(chars, system),
        forall|i: int| 0 <= i < name_tokens(chars, system).len() ==> #[trigger] name_tokens(chars, system)[i].len() > 0,
        name_tokens(chars, system).len() > 0 <==> has_letters(chars),
{
    lemma_scan_invariant(chars, system);
    let (done, cur) = scan(chars, system);
    if cur.len() > 0 {
        assert(done.push(cur).drop_last() =~= done);
    } else {
        assert(flatten_words(done) + cur =~= flatten_words(done));
    }
}

/// The letters of a text are no more than its characters, and each is worth a digit.
pub proof fn lemma_letter_values_bounds(chars: Seq<char>, system: System)
    ensures
        letter_values(chars, system).len() <= chars.len(),
        values_are_digits(letter_values(chars, system)),
    decreases chars.len(),
{
    if chars.len() > 0 {
        lemma_letter_values_bounds(chars.drop_last(), system);
        if decode_of(chars.last()) is Some {
            law_decoded_values_in_range(chars.last());
        }
    }
}

/// A sum of digit-valued letters is at most nine per letter.
pub proof fn lemma_value_sum_bound(s: Seq<LetterValue>, keep: spec_fn(LetterValue) -> bool)
    requires
        values_are_digits(s),
    ensures
        value_sum(s, keep) <= 9 * s.len(),
    decreases s.len(),
{
    if s.len() > 0 {
        assert(values_are_digits(s.drop_last())) by {
            assert forall|i: int| 0 <= i < s.drop_last().len() implies 1 <= #[trigger] s.drop_last()[i].value <= 9 by {
                assert(s.drop_last()[i] == s[i]);
            }
        }
        lemma_value_sum_bound(s.drop_last(), keep);
    }
}

/// With letters worth 1 to 9, no digit occurs more often than the total.
pub proof fn lemma_count_le_total(s: Seq<LetterValue>, d: nat)
    requires
        values_are_digits(s),
    ensures
        count_value(s, d) <= value_sum(s, any_letter()),
    decreases s.len(),
{
    if s.len() > 0 {
        let p = s.drop_last();
        assert(values_are_digits(p)) by {
            assert forall|i: int| 0 <= i < p.len() implies 1 <= #[trigger] p[i].value <= 9 by {
                assert(p[i] == s[i]);
            }
        }
        lemma_count_le_total(p, d);
        assert(s.last() == s[s.len() - 1]);
        assert(1 <= s[s.len() - 1].value);
    }
}

/// Sums add up over joined sequences.
pub proof fn lemma_value_sum_concat(a: Seq<LetterValue>, b: Seq<LetterValue>, keep: spec_fn(LetterValue) -> bool)
    ensures
        value_sum(a + b, keep) == value_sum(a, keep) + value_sum(b, keep),
    decreases b.len(),
{
    if b.len() > 0 {
        lemma_value_sum_concat(a, b.drop_last(), keep);
        assert((a + b).drop_last() =~= a + b.drop_last());
        assert((a + b).last() == b.last());
    } else {
        assert(a + b =~= a);
    }
}

/// The first letters of the words never sum to more than all letters.
pub proof fn lemma_initials_le_total(words: Seq<Seq<LetterValue>>)
    ensures
        initials_of(words) <= value_sum(flatten_words(words), any_letter()),
    decreases words.len(),
{
    if words.len() > 0 {
        let prev = words.drop_last();
        let last = words.last();
        lemma_initials_le_total(prev);
        lemma_value_sum_concat(flatten_words(prev), last, any_letter());
        if last.len() > 0 {
            lemma_value_sum_prefix(last, 1, any_letter());
            assert(last.take(1).drop_last() =~= Seq::<LetterValue>::empty());
            assert(last.take(1).last() == last[0]);
        }
    }
}

/// How many letters of a name are worth each digit all fit in a `u32`.
pub open spec fn frequencies_fit(name: Seq<char>, system: System) -> bool {
    forall|d: nat| d < 10 ==> #[trigger] count_value(letter_values(name, system), d) <= u32::MAX
}

/// When a name's total fits in a `u32`, so do its vowels, consonants,
/// initials and digit counts.
pub proof fn lemma_name_sums_fit(name: Seq<char>, system: System)
    requires
        name_total(name, system) <= u32::MAX,
    ensures
        name_vowels(name, system) <= u32::MAX,
        name_consonants(name, system) <= u32::MAX,
        name_initials(name, system) <= u32::MAX,
        frequencies_fit(name, system),
{
    let s = letter_values(name, system);
    law_total_is_vowels_plus_consonants(s);
    lemma_scan_facts(name, system);
    lemma_initials_le_total(name_tokens(name, system));
    lemma_letter_values_bounds(name, system);
    assert forall|d: nat| d < 10 implies #[trigger] count_value(s, d) <= u32::MAX by {
        lemma_count_le_total(s, d);
    }
}

/// A name of at most `MAX_NAME_CHARS` characters totals at most `u32::MAX`.
pub proof fn lemma_short_names_fit(name: Seq<char>, system: System)
    requires
        name.len() <= MAX_NAME_CHARS,
    ensures
        name_total(name, system) <= u32::MAX,
{
    lemma_letter_values_bounds(name, system);
    lemma_value_sum_bound(letter_values(name, system), any_letter());
}

} // verus!
