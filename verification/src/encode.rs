//! The encode transform: a message becomes a stream of cipher letters and a
//! stream of markers.

use vstd::prelude::*;
use crate::alphabet::{
    alpha_to_int, code_letter, int_to_alpha, is_letter, is_upper, is_uppercase_letter,
    letter_code,
};
use crate::error::KeyError;
use crate::punctuation::{encode_punctuation, lemma_table_distinct, punctuation_code};
use crate::text::to_chars;
use crate::translit::{is_ascii_text, transliterate, transliteration};

verus! {

/// The marker of an upper-case letter.
pub const UPPER_CASE: i32 = 0;

/// The marker of a lower-case letter.
pub const LOWER_CASE: i32 = 1;

/// The letters of `text`, in order.
pub open spec fn letters_of(text: Seq<char>) -> Seq<char> {
    text.filter(|c: char| is_letter(c))
}

/// The marker of one character: 0 for an upper-case letter, 1 for a
/// lower-case letter, and its punctuation code for anything else.
pub open spec fn marker_of(c: char) -> int {
    if is_upper(c) {
        0
    } else if is_letter(c) {
        1
    } else {
        punctuation_code(c)
    }
}

/// One marker for each character of `text`, in order.
pub open spec fn marker_stream(text: Seq<char>) -> Seq<i32> {
    Seq::new(text.len(), |i: int| marker_of(text[i]) as i32)
}

/// The code of a letter moved forward by the code of a key character: their
/// sum modulo 26.  A key character that is no letter has the code -1; the one
/// sum that it can take below zero stays -1, which is no letter's code.
pub open spec fn shifted(letter: int, key: int) -> int {
    if letter + key < 0 {
        letter + key
    } else {
        (letter + key) % 26
    }
}

/// The cipher letter for a letter of the message and a character of the key.
pub open spec fn cipher_letter(plain: char, key: char) -> char {
    code_letter(shifted(letter_code(plain), letter_code(key)))
}

/// One cipher letter for each letter of `text`, in order: letter `i` of the
/// text is moved by character `i` of the key.
pub open spec fn cipher_stream(text: Seq<char>, key: Seq<char>) -> Seq<char> {
    Seq::new(letters_of(text).len(), |i: int| cipher_letter(letters_of(text)[i], key[i]))
}

/// What encoding `text` under `key` gives: both streams, or the refusal of a
/// key with fewer characters than the text has letters.
pub open spec fn encoded(text: Seq<char>, key: Seq<char>) -> Result<
    (Seq<char>, Seq<i32>),
    KeyError,
> {
    if key.len() < letters_of(text).len() {
        Err(KeyError::TooShort)
    } else {
        Ok((cipher_stream(text, key), marker_stream(text)))
    }
}

/// The two streams of a result, each taken by its view.
pub open spec fn streams_view(r: Result<(String, Vec<i32>), KeyError>) -> Result<
    (Seq<char>, Seq<i32>),
    KeyError,
> {
    match r {
        Ok((cipher, markers)) => Ok((cipher@, markers@)),
        Err(e) => Err(e),
    }
}

/// One more character is one more letter, or none.
pub proof fn lemma_letters_push(text: Seq<char>, c: char)
    ensures
        letters_of(text.push(c)) == if is_letter(c) {
            letters_of(text).push(c)
        } else {
            letters_of(text)
        },
{
    text.lemma_filter_push(c, |c: char| is_letter(c));
}

/// A part of a text has no more letters than the text.
pub proof fn lemma_letters_of_prefix(text: Seq<char>, n: int)
    requires
        0 <= n <= text.len(),
    ensures
        letters_of(text.take(n)).len() <= letters_of(text).len(),
        letters_of(text).len() <= text.len(),
{
    broadcast use vstd::seq_lib::group_filter_ensures;

    assert(text =~= text.take(n) + text.skip(n));
    Seq::filter_distributes_over_add(text.take(n), text.skip(n), |c: char| is_letter(c));
}

/// Every character of the text has one marker, and every letter one cipher
/// letter.
pub proof fn lemma_stream_lengths(text: Seq<char>, key: Seq<char>)
    ensures
        marker_stream(text).len() == text.len(),
        cipher_stream(text, key).len() == letters_of(text).len(),
        cipher_stream(text, key).len() <= text.len(),
{
    lemma_letters_of_prefix(text, 0);
}

/// Encodes a text that is ASCII already.
///
/// A character that is no letter puts its punctuation code on the marker
/// stream and leaves the cipher stream and the key alone.  A letter puts its
/// case on the marker stream and its substitute on the cipher stream, and
/// uses up one character of the key.
pub fn encode_text(text: &str, key: &str) -> (streams: Result<(String, Vec<i32>), KeyError>)
    ensures
        streams_view(streams) == encoded(text@, key@),
{
    let chars = to_chars(text);
    let key_chars = to_chars(key);
    let mut translation = String::new();
    let mut translation_punc: Vec<i32> = Vec::new();
    let mut index_of_letters: usize = 0;
    let mut i: usize = 0;
    while i < chars.len()
        invariant
            i <= chars.len(),
            chars@ == text@,
            key_chars@ == key@,
            index_of_letters == letters_of(chars@.take(i as int)).len(),
            index_of_letters <= key_chars.len(),
            translation@ == cipher_stream(chars@.take(i as int), key@),
            translation_punc@ == marker_stream(chars@.take(i as int)),
        decreases chars.len() - i,
    {
        let c = chars[i];
        let ghost before = chars@.take(i as int);
        proof {
            assert(chars@.take(i + 1) == before.push(c));
            lemma_letters_push(before, c);
            lemma_letters_of_prefix(chars@, i + 1);
            lemma_table_distinct();
        }
        let code = alpha_to_int(c);
        if code == -1 {
            translation_punc.push(encode_punctuation(c));
            proof {
                assert(translation_punc@ =~= marker_stream(before.push(c)));
                assert(translation@ =~= cipher_stream(before.push(c), key@));
            }
        } else {
            if index_of_letters >= key_chars.len() {
                return Err(KeyError::TooShort);
            }
            if is_uppercase_letter(c) {
                translation_punc.push(UPPER_CASE);
            } else {
                translation_punc.push(LOWER_CASE);
            }
            let sum = code + alpha_to_int(key_chars[index_of_letters]);
            let translated_value = if sum < 0 {
                sum
            } else {
                sum % 26
            };
            translation.push(int_to_alpha(translated_value));
            index_of_letters += 1;
            proof {
                assert(translation_punc@ =~= marker_stream(before.push(c)));
                assert(translation@ =~= cipher_stream(before.push(c), key@));
            }
        }
        i += 1;
    }
    assert(chars@.take(chars.len() as int) == chars@);
    Ok((translation, translation_punc))
}

/// Encodes a message: transliterates it to ASCII and encodes the result.
/// Of a message that is ASCII already, the message itself is encoded.
pub fn to_vigenere(message: &String, key: &String) -> (streams: Result<
    (String, Vec<i32>),
    KeyError,
>)
    ensures
        streams_view(streams) == encoded(transliteration(message@), key@),
        is_ascii_text(message@) ==> streams_view(streams) == encoded(message@, key@),
{
    let ascii = transliterate(message.as_str());
    encode_text(ascii.as_str(), key.as_str())
}

} // verus!
