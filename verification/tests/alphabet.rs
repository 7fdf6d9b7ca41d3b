use numancy::alphabet::{cabalistic_value, decode, is_vowel, pythagorean_value, Accent, DecodedChar};
use numancy::System;

#[test]
fn decodes_plain_and_accented_letters() {
    assert_eq!(
        decode('C'),
        Some(DecodedChar {
            base: 'C',
            accent: None,
            cedilla: false
        })
    );
    assert_eq!(
        decode('ê'),
        Some(DecodedChar {
            base: 'E',
            accent: Some(Accent::Circumflex),
            cedilla: false
        })
    );
    assert_eq!(
        decode('Ç'),
        Some(DecodedChar {
            base: 'C',
            accent: None,
            cedilla: true
        })
    );
    assert_eq!(decode('7'), None);
    assert_eq!(decode(' '), None);
}

#[test]
fn pythagorean_table_wraps_every_nine() {
    assert_eq!(pythagorean_value(&decode('A').unwrap()), 1);
    assert_eq!(pythagorean_value(&decode('I').unwrap()), 9);
    assert_eq!(pythagorean_value(&decode('J').unwrap()), 1);
    assert_eq!(pythagorean_value(&decode('R').unwrap()), 9);
    assert_eq!(pythagorean_value(&decode('Z').unwrap()), 8);
}

#[test]
fn cabalistic_table_matches_reference_map() {
    for (c, v) in [
        ('A', 1),
        ('B', 2),
        ('C', 3),
        ('E', 5),
        ('L', 3),
        ('S', 3),
        ('U', 6),
        ('V', 6),
        ('R', 2),
        ('Z', 7),
    ] {
        assert_eq!(cabalistic_value(&decode(c).unwrap()), v, "letter {c}");
    }
}

#[test]
fn cabalistic_accent_adds_and_reduces() {
    // ê = E(5) + circumflex(7) = 12 -> 3.
    assert_eq!(cabalistic_value(&decode('ê').unwrap()), 3);
    // á = A(1) + acute(2) = 3.
    assert_eq!(cabalistic_value(&decode('á').unwrap()), 3);
    // ã = A(1) + tilde(3) = 4.
    assert_eq!(cabalistic_value(&decode('ã').unwrap()), 4);
    // õ = O(7) + tilde(3) = 10 -> 1.
    assert_eq!(cabalistic_value(&decode('õ').unwrap()), 1);
    // ü = U(6) + diaeresis(2) = 8.
    assert_eq!(cabalistic_value(&decode('ü').unwrap()), 8);
    // í = I(1) + acute(2) = 3.
    assert_eq!(cabalistic_value(&decode('í').unwrap()), 3);
}

#[test]
fn cedilla_is_worth_eight_in_cabalistic() {
    let c = decode('ç').unwrap();
    assert!(c.cedilla);
    assert_eq!(cabalistic_value(&c), 8);
    // The Pythagorean system treats a cedilla as a plain C.
    assert_eq!(pythagorean_value(&c), pythagorean_value(&decode('C').unwrap()));
}

#[test]
fn decode_is_case_insensitive() {
    assert_eq!(decode('a'), decode('A'));
    assert_eq!(decode('z'), decode('Z'));
    assert_eq!(decode('É'), decode('é'));
}

#[test]
fn tilde_n_decodes_to_n_with_tilde() {
    assert_eq!(
        decode('ñ'),
        Some(DecodedChar {
            base: 'N',
            accent: Some(Accent::Tilde),
            cedilla: false
        })
    );
}

#[test]
fn vowels_exclude_y() {
    for v in ['A', 'E', 'I', 'O', 'U'] {
        assert!(is_vowel(v), "{v} should be a vowel");
    }
    for c in ['Y', 'B', 'Z', 'M'] {
        assert!(!is_vowel(c), "{c} should be a consonant");
    }
}

#[test]
fn cabalistic_full_alphabet_stays_in_range() {
    for c in 'A'..='Z' {
        let v = cabalistic_value(&decode(c).unwrap());
        assert!((1..=8).contains(&v), "letter {c} -> {v} out of 1..=8");
    }
}

#[test]
fn pythagorean_full_alphabet_stays_in_range() {
    for c in 'A'..='Z' {
        let v = pythagorean_value(&decode(c).unwrap());
        assert!((1..=9).contains(&v), "letter {c} -> {v} out of 1..=9");
    }
}

#[test]
fn every_latin1_accented_letter_decodes_in_both_cases() {
    let lower = "áàâãäåéèêëíìîïóòôõöúùûüçñ";
    let upper = "ÁÀÂÃÄÅÉÈÊËÍÌÎÏÓÒÔÕÖÚÙÛÜÇÑ";
    for (l, u) in lower.chars().zip(upper.chars()) {
        assert!(decode(l).is_some(), "{l} should decode");
        assert_eq!(decode(l), decode(u), "{l} and {u}");
        assert_eq!(u.to_lowercase().next(), Some(l));
    }
    // The Angstrom sign lowercases to a with ring.
    assert_eq!(decode('\u{212b}'), decode('å'));
    // Other letters, digits and symbols do not decode.
    for c in ['ø', 'Ø', 'ß', 'ý', '\u{212a}', '0', '-', '@'] {
        assert_eq!(decode(c), None, "{c:?}");
    }
}

#[test]
fn accented_o_can_be_worth_nine() {
    // ó = O(7) + acute(2) = 9, the one way to reach 9 in the cabalistic table.
    assert_eq!(cabalistic_value(&decode('ó').unwrap()), 9);
    assert_eq!(cabalistic_value(&decode('ö').unwrap()), 9);
}

#[test]
fn system_letter_value_and_masters() {
    let d = decode('ê').unwrap();
    assert_eq!(System::Pythagorean.letter_value(&d), 5);
    assert_eq!(System::Cabalistic.letter_value(&d), 3);
    assert_eq!(System::Pythagorean.masters(), &[11, 22, 33]);
    assert_eq!(System::Cabalistic.masters(), &[11, 22]);
}

#[test]
fn pythagorean_value_of_an_unusual_base() {
    // Bases past 'Z' follow the same arithmetic: 'a' is byte 97, 32 % 9 + 1 = 6.
    let d = DecodedChar {
        base: 'a',
        accent: None,
        cedilla: false,
    };
    assert_eq!(pythagorean_value(&d), 6);
}
