//! The Caesar cipher over the Spanish alphabet (a–z plus ñ, 27 letters) used
//! to obscure protected note files: a fixed shift of 23 positions, case kept
//! where ASCII allows, every other character unchanged.

use vstd::prelude::*;

verus! {

/// Position of a lowercase Spanish letter in the 27-letter alphabet
/// `a..n, ñ, o..z`; negative for any other character.
pub open spec fn alpha_index_of(c: char) -> int {
    let u = c as u32;
    if 97 <= u <= 110 {
        u - 97
    } else if u == 241 {
        14
    } else if 111 <= u <= 122 {
        u - 96
    } else {
        -1
    }
}

/// The lowercase Spanish letter at a position.
pub open spec fn alpha_char_at(i: int) -> char {
    if i == 0 {
        'a'
    } else if i == 1 {
        'b'
    } else if i == 2 {
        'c'
    } else if i == 3 {
        'd'
    } else if i == 4 {
        'e'
    } else if i == 5 {
        'f'
    } else if i == 6 {
        'g'
    } else if i == 7 {
        'h'
    } else if i == 8 {
        'i'
    } else if i == 9 {
        'j'
    } else if i == 10 {
        'k'
    } else if i == 11 {
        'l'
    } else if i == 12 {
        'm'
    } else if i == 13 {
        'n'
    } else if i == 14 {
        '\u{f1}'
    } else if i == 15 {
        'o'
    } else if i == 16 {
        'p'
    } else if i == 17 {
        'q'
    } else if i == 18 {
        'r'
    } else if i == 19 {
        's'
    } else if i == 20 {
        't'
    } else if i == 21 {
        'u'
    } else if i == 22 {
        'v'
    } else if i == 23 {
        'w'
    } else if i == 24 {
        'x'
    } else if i == 25 {
        'y'
    } else {
        'z'
    }
}

/// Position of an ASCII capital letter in `A..Z`; negative otherwise.  The
/// capital eñe is not ASCII and is left out, as `to_ascii_lowercase` leaves
/// it out.
pub open spec fn upper_index_of(c: char) -> int {
    let u = c as u32;
    if 65 <= u <= 90 {
        u - 65
    } else {
        -1
    }
}

/// The ASCII capital letter at a position in `A..Z`.
pub open spec fn upper_char_at(i: int) -> char {
    if i == 0 {
        'A'
    } else if i == 1 {
        'B'
    } else if i == 2 {
        'C'
    } else if i == 3 {
        'D'
    } else if i == 4 {
        'E'
    } else if i == 5 {
        'F'
    } else if i == 6 {
        'G'
    } else if i == 7 {
        'H'
    } else if i == 8 {
        'I'
    } else if i == 9 {
        'J'
    } else if i == 10 {
        'K'
    } else if i == 11 {
        'L'
    } else if i == 12 {
        'M'
    } else if i == 13 {
        'N'
    } else if i == 14 {
        'O'
    } else if i == 15 {
        'P'
    } else if i == 16 {
        'Q'
    } else if i == 17 {
        'R'
    } else if i == 18 {
        'S'
    } else if i == 19 {
        'T'
    } else if i == 20 {
        'U'
    } else if i == 21 {
        'V'
    } else if i == 22 {
        'W'
    } else if i == 23 {
        'X'
    } else if i == 24 {
        'Y'
    } else {
        'Z'
    }
}

/// One character under the cipher.  A lowercase Spanish letter shifts within
/// the 27-letter alphabet.  An ASCII capital shifts through its lowercase
/// position; the result is capitalized where ASCII can (a shift landing on
/// the eñe stays a lowercase eñe, exactly as `to_ascii_uppercase` leaves
/// it).  Everything else is unchanged.
pub open spec fn spec_shift_char(c: char, shift: int) -> char {
    let i = alpha_index_of(c);
    if i >= 0 {
        alpha_char_at((i + shift) % 27)
    } else {
        let ui = upper_index_of(c);
        if ui >= 0 {
            let li: int = if ui < 14 {
                ui
            } else {
                ui + 1
            };
            let r = (li + shift) % 27;
            if r == 14 {
                '\u{f1}'
            } else {
                upper_char_at(
                    if r < 14 {
                        r
                    } else {
                        r - 1
                    },
                )
            }
        } else {
            c
        }
    }
}

/// The whole text under the cipher with a given shift.
pub open spec fn spec_cipher(s: Seq<char>, shift: int) -> Seq<char> {
    s.map_values(|c: char| spec_shift_char(c, shift))
}

/// One character shifted forward by `shift` positions, exactly as
/// `spec_shift_char` describes.
fn shift_char(c: char, shift: u32) -> (r: char)
    requires
        shift < 27,
    ensures
        r == spec_shift_char(c, shift as int),
{
    let u = c as u32;
    let i: u32;
    if 97 <= u && u <= 110 {
        i = u - 97;
    } else if u == 241 {
        i = 14;
    } else if 111 <= u && u <= 122 {
        i = u - 96;
    } else if 65 <= u && u <= 90 {
        let ui = u - 65;
        let li: u32 = if ui < 14 {
            ui
        } else {
            ui + 1
        };
        let r = (li + shift) % 27;
        if r == 14 {
            return '\u{f1}';
        }
        let bi = if r < 14 {
            r
        } else {
            r - 1
        };
        return upper_at(bi);
    } else {
        return c;
    }
    let j = (i + shift) % 27;
    alpha_at(j)
}

fn alpha_at(i: u32) -> (r: char)
    requires
        i < 27,
    ensures
        r == alpha_char_at(i as int),
{
    if i == 0 {
        'a'
    } else if i == 1 {
        'b'
    } else if i == 2 {
        'c'
    } else if i == 3 {
        'd'
    } else if i == 4 {
        'e'
    } else if i == 5 {
        'f'
    } else if i == 6 {
        'g'
    } else if i == 7 {
        'h'
    } else if i == 8 {
        'i'
    } else if i == 9 {
        'j'
    } else if i == 10 {
        'k'
    } else if i == 11 {
        'l'
    } else if i == 12 {
        'm'
    } else if i == 13 {
        'n'
    } else if i == 14 {
        '\u{f1}'
    } else if i == 15 {
        'o'
    } else if i == 16 {
        'p'
    } else if i == 17 {
        'q'
    } else if i == 18 {
        'r'
    } else if i == 19 {
        's'
    } else if i == 20 {
        't'
    } else if i == 21 {
        'u'
    } else if i == 22 {
        'v'
    } else if i == 23 {
        'w'
    } else if i == 24 {
        'x'
    } else if i == 25 {
        'y'
    } else {
        'z'
    }
}

fn upper_at(i: u32) -> (r: char)
    requires
        i < 26,
    ensures
        r == upper_char_at(i as int),
{
    if i == 0 {
        'A'
    } else if i == 1 {
        'B'
    } else if i == 2 {
        'C'
    } else if i == 3 {
        'D'
    } else if i == 4 {
        'E'
    } else if i == 5 {
        'F'
    } else if i == 6 {
        'G'
    } else if i == 7 {
        'H'
    } else if i == 8 {
        'I'
    } else if i == 9 {
        'J'
    } else if i == 10 {
        'K'
    } else if i == 11 {
        'L'
    } else if i == 12 {
        'M'
    } else if i == 13 {
        'N'
    } else if i == 14 {
        'O'
    } else if i == 15 {
        'P'
    } else if i == 16 {
        'Q'
    } else if i == 17 {
        'R'
    } else if i == 18 {
        'S'
    } else if i == 19 {
        'T'
    } else if i == 20 {
        'U'
    } else if i == 21 {
        'V'
    } else if i == 22 {
        'W'
    } else if i == 23 {
        'X'
    } else if i == 24 {
        'Y'
    } else {
        'Z'
    }
}

fn cipher(text: &str, shift: u32) -> (r: String)
    requires
        shift < 27,
    ensures
        r@ == spec_cipher(text@, shift as int),
{
    let cs = crate::text::str_chars(text);
    let mut out: Vec<char> = Vec::new();
    let mut i: usize = 0;
    while i < cs.len()
        invariant
            shift < 27,
            cs@ == text@,
            i <= cs@.len(),
            out@ == spec_cipher(text@.take(i as int), shift as int),
        decreases cs@.len() - i,
    {
        out.push(shift_char(cs[i], shift));
        proof {
            assert(text@.take(i + 1) =~= text@.take(i as int).push(text@[i as int]));
            assert(out@ =~= spec_cipher(text@.take(i + 1), shift as int));
        }
        i = i + 1;
    }
    proof {
        assert(text@.take(text@.len() as int) =~= text@);
    }
    crate::text::chars_to_string(&out)
}

/// Encrypt a text with the fixed shift of 23 positions over the Spanish
/// alphabet, keeping case and leaving every other character unchanged.
pub fn encrypt_spanish_caesar(text: &str) -> (r: String)
    ensures
        r@ == spec_cipher(text@, 23),
{
    cipher(text, 23)
}

/// Decrypt a text encrypted with the fixed shift of 23 positions: shifting
/// four more positions completes the 27-letter cycle.
pub fn decrypt_spanish_caesar(text: &str) -> (r: String)
    ensures
        r@ == spec_cipher(text@, 4),
{
    cipher(text, 4)
}

proof fn lemma_shift_char_round_trip(c: char)
    requires
        c != 'R',
    ensures
        spec_shift_char(spec_shift_char(c, 23), 4) == c,
{
}

/// Decrypting an encrypted text gives the original back, for every text
/// without a capital R.  (Encrypting a capital R lands on the eñe, which has
/// no ASCII capital, so its case is lost: `R` comes back as `r`.)
pub proof fn lemma_cipher_round_trip(s: Seq<char>)
    requires
        forall|k: int| 0 <= k < s.len() ==> s[k] != 'R',
    ensures
        spec_cipher(spec_cipher(s, 23), 4) == s,
{
    assert forall|k: int| 0 <= k < s.len() implies spec_cipher(spec_cipher(s, 23), 4)[k] == s[k]
    by {
        lemma_shift_char_round_trip(s[k]);
    }
    assert(spec_cipher(spec_cipher(s, 23), 4) =~= s);
}

} // verus!
