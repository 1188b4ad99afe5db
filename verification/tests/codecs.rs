use vigenere::alphabet::{is_uppercase_letter, to_lowercase_letter, BLANK, NOT_A_LETTER};
use vigenere::punctuation::{SENTINEL_GLYPH, UNRECOGNIZED, WHITELIST};
use vigenere::{alpha_to_int, decode_punctuation, encode_punctuation, int_to_alpha};

#[test]
fn letters_map_to_their_positions() {
    assert_eq!(alpha_to_int('a'), 0);
    assert_eq!(alpha_to_int('A'), 0);
    assert_eq!(alpha_to_int('l'), 11);
    assert_eq!(alpha_to_int('L'), 11);
    assert_eq!(alpha_to_int('z'), 25);
    assert_eq!(alpha_to_int('Z'), 25);
}

#[test]
fn every_letter_comes_back_in_upper_case() {
    for c in 'a'..='z' {
        assert_eq!(int_to_alpha(alpha_to_int(c)), c.to_ascii_uppercase());
    }
    for c in 'A'..='Z' {
        assert_eq!(int_to_alpha(alpha_to_int(c)), c);
    }
}

#[test]
fn every_position_comes_back() {
    for n in 0..26 {
        assert_eq!(alpha_to_int(int_to_alpha(n)), n);
    }
}

#[test]
fn non_letters_have_no_position() {
    assert_eq!(NOT_A_LETTER, -1);
    for c in [' ', '!', '0', '9', '@', '[', '`', '{', '\n', 'é', 'ᔕ', '\u{0}'] {
        assert_eq!(alpha_to_int(c), -1);
    }
}

#[test]
fn numbers_outside_the_alphabet_give_a_blank() {
    assert_eq!(BLANK, ' ');
    assert_eq!(int_to_alpha(-1), ' ');
    assert_eq!(int_to_alpha(26), ' ');
    assert_eq!(int_to_alpha(i32::MIN), ' ');
    assert_eq!(int_to_alpha(i32::MAX), ' ');
}

#[test]
fn case_helpers_agree_with_ascii() {
    for code in 0u32..300 {
        let c = char::from_u32(code).unwrap();
        assert_eq!(is_uppercase_letter(c), c.is_ascii_uppercase());
        assert_eq!(to_lowercase_letter(c), c.to_ascii_lowercase());
    }
}

#[test]
fn punctuation_codes_are_the_documented_ones() {
    let expected = [
        (' ', 2), ('!', 3), ('"', 4), ('#', 5), ('$', 6), ('%', 7), ('&', 8), ('\'', 9),
        ('(', 10), (')', 11), ('*', 12), ('+', 13), (',', 14), ('-', 15), ('.', 16), ('/', 17),
        (':', 18), (';', 19), ('<', 20), ('=', 21), ('>', 22), ('?', 23), ('@', 24),
        ('[', 25), ('\\', 26), (']', 27), ('^', 28), ('_', 29), ('`', 30),
        ('{', 31), ('|', 32), ('}', 33), ('~', 34),
        ('0', 35), ('1', 36), ('2', 37), ('3', 38), ('4', 39),
        ('5', 40), ('6', 41), ('7', 42), ('8', 43), ('9', 44),
        ('\n', 45), ('\r', 46),
    ];
    assert_eq!(expected.len(), WHITELIST.len());
    for (c, code) in expected {
        assert_eq!(encode_punctuation(c), code);
        assert_eq!(decode_punctuation(code), c);
    }
}

#[test]
fn every_whitelisted_character_comes_back() {
    for c in WHITELIST {
        let code = encode_punctuation(c);
        assert!((2..=46).contains(&code));
        assert_eq!(decode_punctuation(code), c);
    }
    for code in 2..=46 {
        assert_eq!(encode_punctuation(decode_punctuation(code)), code);
    }
}

#[test]
fn unrecognized_characters_are_tagged() {
    assert_eq!(UNRECOGNIZED, 47);
    assert_eq!(SENTINEL_GLYPH, 'ᔕ');
    for c in ['a', 'Z', '\t', '\u{0}', '\u{7f}', 'é', '北', 'ᔕ'] {
        assert_eq!(encode_punctuation(c), 47);
    }
    assert_eq!(decode_punctuation(47), 'ᔕ');
}

#[test]
fn numbers_without_a_character_give_the_sentinel() {
    for n in [0, 1, -1, 48, 100, i32::MIN, i32::MAX] {
        assert_eq!(decode_punctuation(n), 'ᔕ');
    }
}

#[test]
fn punctuation_codes_never_look_like_case_markers() {
    for code in 0u32..0x3000 {
        if let Some(c) = char::from_u32(code) {
            assert!(encode_punctuation(c) >= 2);
        }
    }
}
