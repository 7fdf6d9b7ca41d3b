use numancy::name::{distinct_present, missing_digits, most_frequent, NameAnalysis};
use numancy::{NumerologyError, System};

#[test]
fn splits_tokens_and_skips_punctuation() {
    // Whitespace and hyphens both split; punctuation is dropped.
    let a = NameAnalysis::new("Ada Lovelace-King!", System::Cabalistic).unwrap();
    assert_eq!(a.tokens.len(), 3);
    // Accents do not create extra tokens.
    let b = NameAnalysis::new("Karen Spärck Jones", System::Cabalistic).unwrap();
    assert_eq!(b.tokens.len(), 3);
}

#[test]
fn name_empty_name_errors() {
    assert_eq!(
        NameAnalysis::new("  123 !!", System::Pythagorean),
        Err(NumerologyError::EmptyName)
    );
    assert_eq!(NameAnalysis::new("", System::Cabalistic), Err(NumerologyError::EmptyName));
}

#[test]
fn sums_split_into_vowels_and_consonants() {
    // "Ada Lovelace" cabalistic: A1 D4 A1 | L3 O7 V6 E5 L3 A1 C3 E5.
    let a = NameAnalysis::new("Ada Lovelace", System::Cabalistic).unwrap();
    assert_eq!(a.total_sum(), 39);
    assert_eq!(a.vowel_sum(), 20);
    assert_eq!(a.consonant_sum(), 19);
    // Total is always vowels + consonants.
    assert_eq!(a.total_sum(), a.vowel_sum() + a.consonant_sum());
}

#[test]
fn initials_sum_uses_first_letter_of_each_token() {
    // First letters A and L -> 1 + 3 = 4.
    let a = NameAnalysis::new("Ada Lovelace", System::Cabalistic).unwrap();
    assert_eq!(a.initials_sum(), 4);
}

#[test]
fn base_values_preserve_letter_order() {
    let a = NameAnalysis::new("Ada Lovelace", System::Cabalistic).unwrap();
    assert_eq!(a.base_values(), vec![1, 4, 1, 3, 7, 6, 5, 3, 1, 3, 5]);
}

#[test]
fn frequency_helpers() {
    // "Ada Lovelace": 1 and 3 each appear three times.
    let a = NameAnalysis::new("Ada Lovelace", System::Cabalistic).unwrap();
    let freq = a.digit_frequency();
    assert_eq!(freq[1], 3);
    assert_eq!(freq[3], 3);
    assert_eq!(missing_digits(&freq, 9), vec![2, 8, 9]);
    assert_eq!(most_frequent(&freq), vec![1, 3]);
    assert_eq!(distinct_present(&freq), 6);
}

#[test]
fn most_frequent_can_return_a_tie() {
    // "Ada Lovelace" ties 1 and 3 as the most frequent values.
    let a = NameAnalysis::new("Ada Lovelace", System::Cabalistic).unwrap();
    assert_eq!(most_frequent(&a.digit_frequency()), vec![1, 3]);
}

#[test]
fn letters_keep_original_characters_and_flags() {
    let a = NameAnalysis::new("Çé y", System::Cabalistic).unwrap();
    let letters = a.letters();
    assert_eq!(letters.len(), 3);
    assert_eq!(letters[0].original, 'Ç');
    assert_eq!(letters[0].base, 'C');
    // A cedilla is never a vowel; an accented E is.
    assert!(!letters[0].is_vowel);
    assert_eq!(letters[0].value, 8);
    assert!(letters[1].is_vowel);
    assert_eq!(letters[1].value, 7);
    // Y is a consonant.
    assert!(!letters[2].is_vowel);
    assert_eq!(a.tokens.len(), 2);
}

#[test]
fn unicode_whitespace_and_runs_of_separators_split_once() {
    let a = NameAnalysis::new("Ada\u{3000}\u{a0}--Byron\tKing", System::Pythagorean).unwrap();
    assert_eq!(a.tokens.len(), 3);
    // Punctuation inside a word does not split it.
    let b = NameAnalysis::new("O'Neil", System::Pythagorean).unwrap();
    assert_eq!(b.tokens.len(), 1);
    assert_eq!(b.letters().len(), 5);
}

#[test]
fn frequency_edge_cases() {
    let none = [0u32; 10];
    assert_eq!(most_frequent(&none), Vec::<u8>::new());
    assert_eq!(missing_digits(&none, 9), vec![1, 2, 3, 4, 5, 6, 7, 8, 9]);
    assert_eq!(missing_digits(&none, 0), Vec::<u8>::new());
    assert_eq!(distinct_present(&none), 0);
    // Zero counts never matter to the digits 1..=9.
    let mut zeros = [0u32; 10];
    zeros[0] = 5;
    assert_eq!(most_frequent(&zeros), Vec::<u8>::new());
}
