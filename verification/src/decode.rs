//! The decode transform: a stream of cipher letters and a stream of markers
//! become the message again.

use vstd::prelude::*;
use crate::alphabet::{
    alpha_to_int, code_letter, int_to_alpha, letter_code, lower_of, to_lowercase_letter,
};
use crate::error::CorruptArtifactError;
use crate::punctuation::{decode_punctuation, punctuation_char};
use crate::text::{result_view, to_chars};

verus! {

/// Whether a marker records the case of a letter.
pub open spec fn is_case_marker(marker: i32) -> bool {
    marker == 0 || marker == 1
}

/// The number of markers that record the case of a letter.
pub open spec fn case_marker_count(markers: Seq<i32>) -> nat {
    markers.filter(|m: i32| is_case_marker(m)).len()
}

/// The code of a cipher letter moved back by the code of a key character.
pub open spec fn unshifted(cipher: int, key: int) -> int {
    (cipher - key + 26) % 26
}

/// The letter of the message, in upper case, for a cipher letter and a
/// character of the key.
pub open spec fn plain_letter(cipher: char, key: char) -> char {
    code_letter(unshifted(letter_code(cipher), letter_code(key)))
}

/// The number of letters that can be decoded: cipher letters and key
/// characters go in pairs, and the shorter of the two ends the walk.
pub open spec fn pair_count(cipher: Seq<char>, key: Seq<char>) -> nat {
    if cipher.len() <= key.len() {
        cipher.len()
    } else {
        key.len()
    }
}

/// The decoded letters, all in upper case, one for each pair.
pub open spec fn plain_stream(cipher: Seq<char>, key: Seq<char>) -> Seq<char> {
    Seq::new(pair_count(cipher, key), |i: int| plain_letter(cipher[i], key[i]))
}

/// A decoded letter in the case that its marker records.
pub open spec fn with_case(marker: i32, letter: char) -> char {
    if marker == 1 {
        lower_of(letter)
    } else {
        letter
    }
}

/// The text that the markers spell over the decoded letters.  Each marker
/// that is no case marker gives its punctuation character.  Each case marker
/// takes the next letter and gives it in its case; a case marker that finds
/// no letter left gives nothing.
pub open spec fn replayed(markers: Seq<i32>, letters: Seq<char>) -> Seq<char>
    decreases markers.len(),
{
    if markers.len() == 0 {
        Seq::empty()
    } else {
        let before = replayed(markers.drop_last(), letters);
        let marker = markers.last();
        let taken = case_marker_count(markers.drop_last());
        if !is_case_marker(marker) {
            before.push(punctuation_char(marker as int))
        } else if taken < letters.len() {
            before.push(with_case(marker, letters[taken as int]))
        } else {
            before
        }
    }
}

/// What decoding gives: the replayed text, or the refusal of a marker stream
/// with fewer case markers than there are letters to decode.
pub open spec fn decoded(cipher: Seq<char>, markers: Seq<i32>, key: Seq<char>) -> Result<
    Seq<char>,
    CorruptArtifactError,
> {
    if case_marker_count(markers) < pair_count(cipher, key) {
        Err(CorruptArtifactError::MarkersExhausted)
    } else {
        Ok(replayed(markers, plain_stream(cipher, key)))
    }
}

/// One more marker is one more case marker, or none.
pub proof fn lemma_case_marker_count_push(markers: Seq<i32>, marker: i32)
    ensures
        case_marker_count(markers.push(marker)) == case_marker_count(markers) + if is_case_marker(
            marker,
        ) {
            1nat
        } else {
            0nat
        },
{
    markers.lemma_filter_push(marker, |m: i32| is_case_marker(m));
}

/// What one more marker adds to the replayed text.
pub proof fn lemma_replayed_push(markers: Seq<i32>, marker: i32, letters: Seq<char>)
    ensures
        replayed(markers.push(marker), letters) == if !is_case_marker(marker) {
            replayed(markers, letters).push(punctuation_char(marker as int))
        } else if case_marker_count(markers) < letters.len() {
            replayed(markers, letters).push(
                with_case(marker, letters[case_marker_count(markers) as int]),
            )
        } else {
            replayed(markers, letters)
        },
{
    assert(markers.push(marker).drop_last() =~= markers);
}

/// Decodes a stream of cipher letters with its stream of markers.
///
/// Cipher letters and key characters are walked in pairs, up to the end of
/// the shorter.  Before each decoded letter the markers up to the next case
/// marker are turned into their characters; the case marker then sets the
/// letter's case.  When the pairs are used up, the markers that are left give
/// their characters, and case markers among them give nothing.
pub fn decode_streams(cipher: &str, markers: &Vec<i32>, key: &str) -> (text: Result<
    String,
    CorruptArtifactError,
>)
    ensures
        result_view(text) == decoded(cipher@, markers@, key@),
{
    let cipher_chars = to_chars(cipher);
    let key_chars = to_chars(key);
    let pairs = if cipher_chars.len() <= key_chars.len() {
        cipher_chars.len()
    } else {
        key_chars.len()
    };
    let ghost letters = plain_stream(cipher@, key@);
    let mut translation = String::new();
    let mut index: usize = 0;
    let mut pair: usize = 0;
    assert(markers@.take(0) =~= Seq::<i32>::empty());
    while pair < pairs
        invariant
            cipher_chars@ == cipher@,
            key_chars@ == key@,
            pairs == pair_count(cipher@, key@),
            letters == plain_stream(cipher@, key@),
            pair <= pairs,
            index <= markers.len(),
            case_marker_count(markers@.take(index as int)) == pair,
            translation@ == replayed(markers@.take(index as int), letters),
        decreases pairs - pair,
    {
        while index < markers.len() && markers[index] != 0 && markers[index] != 1
            invariant
                pair < pairs,
                pairs == letters.len(),
                index <= markers.len(),
                case_marker_count(markers@.take(index as int)) == pair,
                translation@ == replayed(markers@.take(index as int), letters),
            decreases markers.len() - index,
        {
            proof {
                assert(markers@.take(index + 1) == markers@.take(index as int).push(
                    markers@[index as int],
                ));
                lemma_case_marker_count_push(markers@.take(index as int), markers@[index as int]);
                lemma_replayed_push(markers@.take(index as int), markers@[index as int], letters);
            }
            translation.push(decode_punctuation(markers[index]));
            index += 1;
        }
        if index >= markers.len() {
            assert(markers@.take(index as int) == markers@);
            return Err(CorruptArtifactError::MarkersExhausted);
        }
        let difference = alpha_to_int(cipher_chars[pair]) - alpha_to_int(key_chars[pair]) + 26;
        let mut translated_char = int_to_alpha(difference % 26);
        if markers[index] == 1 {
            translated_char = to_lowercase_letter(translated_char);
        }
        proof {
            assert(markers@.take(index + 1) == markers@.take(index as int).push(
                markers@[index as int],
            ));
            lemma_case_marker_count_push(markers@.take(index as int), markers@[index as int]);
            lemma_replayed_push(markers@.take(index as int), markers@[index as int], letters);
        }
        translation.push(translated_char);
        index += 1;
        pair += 1;
    }
    while index < markers.len()
        invariant
            pairs == letters.len(),
            index <= markers.len(),
            case_marker_count(markers@.take(index as int)) >= pairs,
            translation@ == replayed(markers@.take(index as int), letters),
        decreases markers.len() - index,
    {
        proof {
            assert(markers@.take(index + 1) == markers@.take(index as int).push(
                markers@[index as int],
            ));
            lemma_case_marker_count_push(markers@.take(index as int), markers@[index as int]);
            lemma_replayed_push(markers@.take(index as int), markers@[index as int], letters);
        }
        if markers[index] != 0 && markers[index] != 1 {
            translation.push(decode_punctuation(markers[index]));
        }
        index += 1;
    }
    proof {
        assert(markers@.take(index as int) == markers@);
    }
    Ok(translation)
}

} // verus!
