//! The alphabet codec: the 26 Latin letters as the integers 0 to 25.

use vstd::prelude::*;

verus! {

/// What `alpha_to_int` returns for a character that is no letter.
pub const NOT_A_LETTER: i32 = -1;

/// What `int_to_alpha` returns for a number outside 0 to 25.
pub const BLANK: char = ' ';

/// Whether `c` is one of A-Z.
pub open spec fn is_upper(c: char) -> bool {
    'A' <= c <= 'Z'
}

/// Whether `c` is one of a-z.
pub open spec fn is_lower(c: char) -> bool {
    'a' <= c <= 'z'
}

/// Whether `c` is one of the 52 letters that the cipher substitutes.
pub open spec fn is_letter(c: char) -> bool {
    is_upper(c) || is_lower(c)
}

/// The position of a letter in the alphabet, whatever its case; `-1` for
/// every other character.
pub open spec fn letter_code(c: char) -> int {
    if is_upper(c) {
        c as int - 'A' as int
    } else if is_lower(c) {
        c as int - 'a' as int
    } else {
        -1
    }
}

/// The upper-case letter at a position of the alphabet; a blank for a number
/// that is no position.
pub open spec fn code_letter(code: int) -> char {
    if 0 <= code <= 25 {
        ('A' as int + code) as char
    } else {
        ' '
    }
}

/// `c` in upper case: a lower-case letter moves, anything else stays.
pub open spec fn upper_of(c: char) -> char {
    if is_lower(c) {
        (c as int - 32) as char
    } else {
        c
    }
}

/// `c` in lower case: an upper-case letter moves, anything else stays.
pub open spec fn lower_of(c: char) -> char {
    if is_upper(c) {
        (c as int + 32) as char
    } else {
        c
    }
}

/// Converts the letters a-z and A-Z to 0-25, and everything else to `-1`.
pub fn alpha_to_int(letter: char) -> (code: i32)
    ensures
        code == letter_code(letter),
        is_letter(letter) <==> 0 <= code <= 25,
        !is_letter(letter) <==> code == NOT_A_LETTER,
{
    if 'A' <= letter && letter <= 'Z' {
        (letter as u8 - 'A' as u8) as i32
    } else if 'a' <= letter && letter <= 'z' {
        (letter as u8 - 'a' as u8) as i32
    } else {
        NOT_A_LETTER
    }
}

/// Converts 0-25 to the letters A-Z, and everything else to a blank.
pub fn int_to_alpha(num: i32) -> (letter: char)
    ensures
        letter == code_letter(num as int),
        0 <= num <= 25 ==> is_upper(letter),
{
    if 0 <= num && num <= 25 {
        ('A' as u8 + num as u8) as char
    } else {
        BLANK
    }
}

/// Whether `c` is one of A-Z.
pub fn is_uppercase_letter(c: char) -> (upper: bool)
    ensures
        upper == is_upper(c),
{
    'A' <= c && c <= 'Z'
}

/// `c` in lower case.
pub fn to_lowercase_letter(c: char) -> (lower: char)
    ensures
        lower == lower_of(c),
{
    if 'A' <= c && c <= 'Z' {
        (c as u8 + 32) as char
    } else {
        c
    }
}

/// Turning a letter into its code and the code back into a letter gives the
/// letter in upper case.
pub proof fn lemma_letter_survives_codec(c: char)
    requires
        is_letter(c),
    ensures
        0 <= letter_code(c) <= 25,
        code_letter(letter_code(c)) == upper_of(c),
{
}

/// Turning a position of the alphabet into its letter and the letter back
/// into a code gives the position.
pub proof fn lemma_code_survives_codec(code: int)
    requires
        0 <= code <= 25,
    ensures
        is_upper(code_letter(code)),
        letter_code(code_letter(code)) == code,
{
}

/// The code of a character is `-1` exactly when the character is no letter.
pub proof fn lemma_only_letters_have_codes(c: char)
    ensures
        !is_letter(c) <==> letter_code(c) == -1,
        -1 <= letter_code(c) <= 25,
{
}

/// A lower-case letter and its upper-case form have the same code.
pub proof fn lemma_code_ignores_case(c: char)
    ensures
        letter_code(upper_of(c)) == letter_code(c),
        letter_code(lower_of(c)) == letter_code(c),
{
}

} // verus!
