//! Letter normalization and per-system letter values.
//!
//! Names are decomposed into a base ASCII letter plus an optional graphic
//! accent (and a cedilla flag). The Pythagorean system ignores accents; the
//! cabalistic system adds the accent's own value to the letter and reduces.

use vstd::prelude::*;

use crate::reduction::{digital_root, reduce_single};

verus! {

/// A graphic accent that can sit on a letter.
#[derive(Clone, Copy, Debug, PartialEq, Eq, Structural)]
pub enum Accent {
    /// Acute accent.
    Acute,
    /// Grave accent.
    Grave,
    /// Circumflex accent.
    Circumflex,
    /// Tilde.
    Tilde,
    /// Diaeresis / umlaut.
    Diaeresis,
    /// Ring above.
    Ring,
}

/// A decoded character: base letter, optional accent, and cedilla flag.
#[derive(Clone, Copy, Debug, PartialEq, Eq, Structural)]
pub struct DecodedChar {
    /// Base letter in `A..=Z`.
    pub base: char,
    /// Accent sitting on the letter, if any.
    pub accent: Option<Accent>,
    /// Whether the original letter was a cedilla.
    pub cedilla: bool,
}

/// The decoded form of a letter.
pub open spec fn letter(base: char, accent: Option<Accent>, cedilla: bool) -> DecodedChar {
    DecodedChar { base, accent, cedilla }
}

/// The accented letters that decode, in both cases: the Latin-1 vowels with
/// acute, grave, circumflex, tilde, diaeresis or ring, c with cedilla, n with
/// tilde, and the Angstrom sign, whose lowercase form is a with ring.
pub open spec fn accented_letter(c: char) -> Option<DecodedChar> {
    match c {
        '\u{e1}' | '\u{c1}' => Some(letter('A', Some(Accent::Acute), false)),
        '\u{e0}' | '\u{c0}' => Some(letter('A', Some(Accent::Grave), false)),
        '\u{e2}' | '\u{c2}' => Some(letter('A', Some(Accent::Circumflex), false)),
        '\u{e3}' | '\u{c3}' => Some(letter('A', Some(Accent::Tilde), false)),
        '\u{e4}' | '\u{c4}' => Some(letter('A', Some(Accent::Diaeresis), false)),
        '\u{e5}' | '\u{c5}' | '\u{212b}' => Some(letter('A', Some(Accent::Ring), false)),
        '\u{e9}' | '\u{c9}' => Some(letter('E', Some(Accent::Acute), false)),
        '\u{e8}' | '\u{c8}' => Some(letter('E', Some(Accent::Grave), false)),
        '\u{ea}' | '\u{ca}' => Some(letter('E', Some(Accent::Circumflex), false)),
        '\u{eb}' | '\u{cb}' => Some(letter('E', Some(Accent::Diaeresis), false)),
        '\u{ed}' | '\u{cd}' => Some(letter('I', Some(Accent::Acute), false)),
        '\u{ec}' | '\u{cc}' => Some(letter('I', Some(Accent::Grave), false)),
        '\u{ee}' | '\u{ce}' => Some(letter('I', Some(Accent::Circumflex), false)),
        '\u{ef}' | '\u{cf}' => Some(letter('I', Some(Accent::Diaeresis), false)),
        '\u{f3}' | '\u{d3}' => Some(letter('O', Some(Accent::Acute), false)),
        '\u{f2}' | '\u{d2}' => Some(letter('O', Some(Accent::Grave), false)),
        '\u{f4}' | '\u{d4}' => Some(letter('O', Some(Accent::Circumflex), false)),
        '\u{f5}' | '\u{d5}' => Some(letter('O', Some(Accent::Tilde), false)),
        '\u{f6}' | '\u{d6}' => Some(letter('O', Some(Accent::Diaeresis), false)),
        '\u{fa}' | '\u{da}' => Some(letter('U', Some(Accent::Acute), false)),
        '\u{f9}' | '\u{d9}' => Some(letter('U', Some(Accent::Grave), false)),
        '\u{fb}' | '\u{db}' => Some(letter('U', Some(Accent::Circumflex), false)),
        '\u{fc}' | '\u{dc}' => Some(letter('U', Some(Accent::Diaeresis), false)),
        '\u{e7}' | '\u{c7}' => Some(letter('C', None, true)),
        '\u{f1}' | '\u{d1}' => Some(letter('N', Some(Accent::Tilde), false)),
        _ => None,
    }
}

/// How a character decodes: ASCII letters to their uppercase form, accented
/// letters to base plus accent, anything else to nothing.
pub open spec fn decode_of(c: char) -> Option<DecodedChar> {
    if 'A' <= c <= 'Z' {
        Some(letter(c, None, false))
    } else if 'a' <= c <= 'z' {
        Some(letter(((c as u32) - 32) as char, None, false))
    } else {
        accented_letter(c)
    }
}

/// Every decoded letter has its base in `A..=Z`.
pub proof fn law_decoded_base_is_uppercase_ascii(c: char)
    ensures
        decode_of(c) matches Some(d) ==> 'A' <= d.base <= 'Z',
{
}

/// Decoding ignores case: an ASCII or Latin-1 uppercase letter decodes as its
/// lowercase form does.
pub proof fn law_decode_ignores_case(c: char)
    requires
        'A' <= c <= 'Z' || ('\u{c0}' <= c <= '\u{de}' && c != '\u{d7}'),
    ensures
        decode_of(c) == decode_of(((c as u32) + 32) as char),
{
}

/// Decode a character into a base letter plus accent, or `None` if it is not a
/// letter (digits, spaces and punctuation are not decodable).
pub fn decode(c: char) -> (d: Option<DecodedChar>)
    ensures
        d == decode_of(c),
{
    if 'A' <= c && c <= 'Z' {
        return Some(DecodedChar { base: c, accent: None, cedilla: false });
    }
    if 'a' <= c && c <= 'z' {
        return Some(DecodedChar { base: ((c as u8) - 32) as char, accent: None, cedilla: false });
    }
    let lower = if c == '\u{212b}' {
        '\u{e5}'
    } else if '\u{c0}' <= c && c <= '\u{de}' && c != '\u{d7}' {
        ((c as u8) + 32) as char
    } else {
        c
    };
    let (base, accent, cedilla) = match lower {
        '\u{e1}' => ('A', Some(Accent::Acute), false),
        '\u{e0}' => ('A', Some(Accent::Grave), false),
        '\u{e2}' => ('A', Some(Accent::Circumflex), false),
        '\u{e3}' => ('A', Some(Accent::Tilde), false),
        '\u{e4}' => ('A', Some(Accent::Diaeresis), false),
        '\u{e5}' => ('A', Some(Accent::Ring), false),
        '\u{e9}' => ('E', Some(Accent::Acute), false),
        '\u{e8}' => ('E', Some(Accent::Grave), false),
        '\u{ea}' => ('E', Some(Accent::Circumflex), false),
        '\u{eb}' => ('E', Some(Accent::Diaeresis), false),
        '\u{ed}' => ('I', Some(Accent::Acute), false),
        '\u{ec}' => ('I', Some(Accent::Grave), false),
        '\u{ee}' => ('I', Some(Accent::Circumflex), false),
        '\u{ef}' => ('I', Some(Accent::Diaeresis), false),
        '\u{f3}' => ('O', Some(Accent::Acute), false),
        '\u{f2}' => ('O', Some(Accent::Grave), false),
        '\u{f4}' => ('O', Some(Accent::Circumflex), false),
        '\u{f5}' => ('O', Some(Accent::Tilde), false),
        '\u{f6}' => ('O', Some(Accent::Diaeresis), false),
        '\u{fa}' => ('U', Some(Accent::Acute), false),
        '\u{f9}' => ('U', Some(Accent::Grave), false),
        '\u{fb}' => ('U', Some(Accent::Circumflex), false),
        '\u{fc}' => ('U', Some(Accent::Diaeresis), false),
        '\u{e7}' => ('C', None, true),
        '\u{f1}' => ('N', Some(Accent::Tilde), false),
        _ => return None,
    };
    Some(DecodedChar { base, accent, cedilla })
}

/// Whether a base letter is a vowel: A, E, I, O or U (`Y` is a consonant).
pub open spec fn is_vowel_letter(base: char) -> bool {
    base == 'A' || base == 'E' || base == 'I' || base == 'O' || base == 'U'
}

/// Whether a base letter is a vowel (A, E, I, O, U). `Y` is treated as a
/// consonant, matching the default in both systems used here.
pub fn is_vowel(base: char) -> (r: bool)
    ensures
        r == is_vowel_letter(base),
{
    match base {
        'A' | 'E' | 'I' | 'O' | 'U' => true,
        _ => false,
    }
}

/// The byte that `base as u8` keeps of a base letter.
pub open spec fn base_byte(d: DecodedChar) -> u32 {
    (d.base as u32) % 256
}

/// Pythagorean value of a letter: position in the alphabet, wrapping every nine.
pub open spec fn pythagorean_value_of(d: DecodedChar) -> u8 {
    (((base_byte(d) - 65) % 9) + 1) as u8
}

/// Pythagorean value of a decoded letter (`A=1 .. I=9`, then repeating).
/// Accents are ignored and a cedilla is treated as a plain `C`.
pub fn pythagorean_value(d: &DecodedChar) -> (v: u8)
    requires
        base_byte(*d) >= 65,
    ensures
        v == pythagorean_value_of(*d),
        1 <= v <= 9,
{
    let byte = ((d.base as u32) % 256) as u8;
    let idx = byte - 65;
    (idx % 9) + 1
}

/// Value of a base letter in the cabalistic `1..8` table (0 for anything else).
pub open spec fn cabalistic_base_of(base: char) -> u8 {
    match base {
        'A' | 'I' | 'Q' | 'J' | 'Y' => 1,
        'B' | 'K' | 'R' => 2,
        'C' | 'G' | 'L' | 'S' => 3,
        'D' | 'M' | 'T' | 'X' => 4,
        'E' | 'H' | 'N' => 5,
        'U' | 'V' | 'W' => 6,
        'O' | 'Z' => 7,
        'F' | 'P' => 8,
        _ => 0,
    }
}

/// Value an accent adds in the cabalistic system.
pub open spec fn accent_value_of(a: Accent) -> u8 {
    match a {
        Accent::Acute | Accent::Grave | Accent::Diaeresis => 2,
        Accent::Tilde => 3,
        Accent::Circumflex | Accent::Ring => 7,
    }
}

/// Cabalistic value of a letter: 8 for a cedilla, the table value for a plain
/// letter, and the digital root of letter plus accent for an accented one.
pub open spec fn cabalistic_value_of(d: DecodedChar) -> u8 {
    if d.cedilla {
        8
    } else {
        match d.accent {
            None => cabalistic_base_of(d.base),
            Some(a) => digital_root((cabalistic_base_of(d.base) + accent_value_of(a)) as u32) as u8,
        }
    }
}

/// Cabalistic value of a decoded letter using the `1..8` table. A cedilla is
/// worth 8; an accented letter is the reduced sum of the letter and accent.
pub fn cabalistic_value(d: &DecodedChar) -> (v: u8)
    ensures
        v == cabalistic_value_of(*d),
        v <= 9,
{
    if d.cedilla {
        return 8;
    }
    let base = cabalistic_base(d.base);
    match d.accent {
        None => base,
        Some(a) => {
            let total = (base as u32) + (accent_value(a) as u32);
            let cn = reduce_single(total);
            proof {
                crate::reduction::law_digital_root_closed_form(total);
            }
            cn.value as u8
        },
    }
}

/// Value of a base letter in the cabalistic table.
pub fn cabalistic_base(base: char) -> (v: u8)
    ensures
        v == cabalistic_base_of(base),
        v <= 8,
{
    match base {
        'A' | 'I' | 'Q' | 'J' | 'Y' => 1,
        'B' | 'K' | 'R' => 2,
        'C' | 'G' | 'L' | 'S' => 3,
        'D' | 'M' | 'T' | 'X' => 4,
        'E' | 'H' | 'N' => 5,
        'U' | 'V' | 'W' => 6,
        'O' | 'Z' => 7,
        'F' | 'P' => 8,
        _ => 0,
    }
}

/// Value an accent adds in the cabalistic system.
pub fn accent_value(a: Accent) -> (v: u8)
    ensures
        v == accent_value_of(a),
{
    match a {
        Accent::Acute | Accent::Grave | Accent::Diaeresis => 2,
        Accent::Tilde => 3,
        Accent::Circumflex | Accent::Ring => 7,
    }
}

/// The Pythagorean value ignores accents and the cedilla: letters with the
/// same base are worth the same.
pub proof fn law_pythagorean_ignores_accents(d1: DecodedChar, d2: DecodedChar)
    requires
        d1.base == d2.base,
    ensures
        pythagorean_value_of(d1) == pythagorean_value_of(d2),
{
}

/// Every plain letter `A..=Z` is worth 1 to 9 in the Pythagorean system and
/// 1 to 8 in the cabalistic system.
pub proof fn law_plain_letter_values_in_range(c: char)
    requires
        'A' <= c <= 'Z',
    ensures
        1 <= pythagorean_value_of(letter(c, None, false)) <= 9,
        1 <= cabalistic_value_of(letter(c, None, false)) <= 8,
{
}

/// Every decodable character is worth 1 to 9 in both systems; a cabalistic 9
/// comes only from an accented letter.
pub proof fn law_decoded_values_in_range(c: char)
    requires
        decode_of(c) is Some,
    ensures
        1 <= pythagorean_value_of(decode_of(c)->0) <= 9,
        1 <= cabalistic_value_of(decode_of(c)->0) <= 9,
        cabalistic_value_of(decode_of(c)->0) == 9 ==> decode_of(c)->0.accent is Some,
{
    let d = decode_of(c)->0;
    if !d.cedilla {
        if let Some(a) = d.accent {
            crate::reduction::law_digital_root_closed_form(
                (cabalistic_base_of(d.base) + accent_value_of(a)) as u32,
            );
        }
    }
}

/// The cabalistic letter table: a plain letter, in either case, is worth
/// 1 for A I Q J Y, 2 for B K R, 3 for C G L S, 4 for D M T X, 5 for E H N,
/// 6 for U V W, 7 for O Z and 8 for F P.
pub proof fn law_cabalistic_letter_table(c: char)
    requires
        'A' <= c <= 'Z' || 'a' <= c <= 'z',
    ensures
        ({
            let v = cabalistic_value_of(decode_of(c)->0);
            &&& (v == 1 <==> "AIQJYaiqjy"@.contains(c))
            &&& (v == 2 <==> "BKRbkr"@.contains(c))
            &&& (v == 3 <==> "CGLScgls"@.contains(c))
            &&& (v == 4 <==> "DMTXdmtx"@.contains(c))
            &&& (v == 5 <==> "EHNehn"@.contains(c))
            &&& (v == 6 <==> "UVWuvw"@.contains(c))
            &&& (v == 7 <==> "OZoz"@.contains(c))
            &&& (v == 8 <==> "FPfp"@.contains(c))
        }),
{
    reveal_strlit("AIQJYaiqjy");
    reveal_strlit("BKRbkr");
    reveal_strlit("CGLScgls");
    reveal_strlit("DMTXdmtx");
    reveal_strlit("EHNehn");
    reveal_strlit("UVWuvw");
    reveal_strlit("OZoz");
    reveal_strlit("FPfp");
    let groups = seq!["AIQJYaiqjy"@, "BKRbkr"@, "CGLScgls"@, "DMTXdmtx"@, "EHNehn"@, "UVWuvw"@, "OZoz"@, "FPfp"@];
    let v = cabalistic_value_of(decode_of(c)->0);
    if c == 'A' {
        assert(groups[0][0] == c);
    }
    if c == 'I' {
        assert(groups[0][1] == c);
    }
    if c == 'Q' {
        assert(groups[0][2] == c);
    }
    if c == 'J' {
        assert(groups[0][3] == c);
    }
    if c == 'Y' {
        assert(groups[0][4] == c);
    }
    if c == 'a' {
        assert(groups[0][5] == c);
    }
    if c == 'i' {
        assert(groups[0][6] == c);
    }
    if c == 'q' {
        assert(groups[0][7] == c);
    }
    if c == 'j' {
        assert(groups[0][8] == c);
    }
    if c == 'y' {
        assert(groups[0][9] == c);
    }
    if c == 'B' {
        assert(groups[1][0] == c);
    }
    if c == 'K' {
        assert(groups[1][1] == c);
    }
    if c == 'R' {
        assert(groups[1][2] == c);
    }
    if c == 'b' {
        assert(groups[1][3] == c);
    }
    if c == 'k' {
        assert(groups[1][4] == c);
    }
    if c == 'r' {
        assert(groups[1][5] == c);
    }
    if c == 'C' {
        assert(groups[2][0] == c);
    }
    if c == 'G' {
        assert(groups[2][1] == c);
    }
    if c == 'L' {
        assert(groups[2][2] == c);
    }
    if c == 'S' {
        assert(groups[2][3] == c);
    }
    if c == 'c' {
        assert(groups[2][4] == c);
    }
    if c == 'g' {
        assert(groups[2][5] == c);
    }
    if c == 'l' {
        assert(groups[2][6] == c);
    }
    if c == 's' {
        assert(groups[2][7] == c);
    }
    if c == 'D' {
        assert(groups[3][0] == c);
    }
    if c == 'M' {
        assert(groups[3][1] == c);
    }
    if c == 'T' {
        assert(groups[3][2] == c);
    }
    if c == 'X' {
        assert(groups[3][3] == c);
    }
    if c == 'd' {
        assert(groups[3][4] == c);
    }
    if c == 'm' {
        assert(groups[3][5] == c);
    }
    if c == 't' {
        assert(groups[3][6] == c);
    }
    if c == 'x' {
        assert(groups[3][7] == c);
    }
    if c == 'E' {
        assert(groups[4][0] == c);
    }
    if c == 'H' {
        assert(groups[4][1] == c);
    }
    if c == 'N' {
        assert(groups[4][2] == c);
    }
    if c == 'e' {
        assert(groups[4][3] == c);
    }
    if c == 'h' {
        assert(groups[4][4] == c);
    }
    if c == 'n' {
        assert(groups[4][5] == c);
    }
    if c == 'U' {
        assert(groups[5][0] == c);
    }
    if c == 'V' {
        assert(groups[5][1] == c);
    }
    if c == 'W' {
        assert(groups[5][2] == c);
    }
    if c == 'u' {
        assert(groups[5][3] == c);
    }
    if c == 'v' {
        assert(groups[5][4] == c);
    }
    if c == 'w' {
        assert(groups[5][5] == c);
    }
    if c == 'O' {
        assert(groups[6][0] == c);
    }
    if c == 'Z' {
        assert(groups[6][1] == c);
    }
    if c == 'o' {
        assert(groups[6][2] == c);
    }
    if c == 'z' {
        assert(groups[6][3] == c);
    }
    if c == 'F' {
        assert(groups[7][0] == c);
    }
    if c == 'P' {
        assert(groups[7][1] == c);
    }
    if c == 'f' {
        assert(groups[7][2] == c);
    }
    if c == 'p' {
        assert(groups[7][3] == c);
    }
    assert forall|g: int| 0 <= g < 8 implies (v == g + 1 <==> (#[trigger] groups[g]).contains(c)) by {
        let grp = groups[g];
        if grp.contains(c) {
            let k = choose|k: int| 0 <= k < grp.len() && grp[k] == c;
            assert(k == 0 || k == 1 || k == 2 || k == 3 || k == 4 || k == 5 || k == 6 || k == 7 || k == 8 || k == 9);
        }
    }
    assert(groups[0] == "AIQJYaiqjy"@ && groups[3] == "DMTXdmtx"@);
}

} // verus!
