//! Decoding undoes encoding.

use vstd::prelude::*;
use vstd::arithmetic::div_mod::lemma_small_mod;
use crate::alphabet::{is_letter, upper_of};
use crate::artifact::{artifact_text, read_back};
use crate::artifact_laws::{is_one_line, lemma_parsing_undoes_rendering, lemma_parts_of_artifact};
use crate::cipher::{lemma_letters_are_content, opened, reader_key, sealed};
use crate::decode::{
    case_marker_count, decoded, lemma_case_marker_count_push, lemma_replayed_push,
    plain_letter, plain_stream, replayed,
};
use crate::encode::{
    cipher_letter, cipher_stream, lemma_letters_of_prefix, lemma_letters_push, letters_of,
    marker_stream,
};
use crate::error::{CipherError, CorruptArtifactError};
use crate::key::{expanded_key, stripped};
use crate::punctuation::{is_whitelisted, lemma_table_is_ascii, lemma_whitelisted_survives_codec};
use crate::translit::is_ascii_text;

verus! {

/// A text that the cipher keeps exactly: every character is a letter or a
/// character of the punctuation table.
pub open spec fn is_plain_text(text: Seq<char>) -> bool {
    forall|i: int| 0 <= i < text.len() ==> is_letter(#[trigger] text[i]) || is_whitelisted(text[i])
}

/// Moving a letter forward by a key character and back by the same key
/// character gives the letter again, in upper case.  This holds for every
/// key character, letter or not.
pub proof fn lemma_shift_round_trip(letter: char, key: char)
    requires
        is_letter(letter),
    ensures
        plain_letter(cipher_letter(letter, key), key) == upper_of(letter),
{
}

proof fn lemma_replay_prefix(text: Seq<char>, plain: Seq<char>, n: int)
    requires
        is_plain_text(text),
        0 <= n <= text.len(),
        plain.len() == letters_of(text).len(),
        forall|i: int| 0 <= i < plain.len() ==> plain[i] == upper_of(#[trigger] letters_of(text)[i]),
    ensures
        case_marker_count(marker_stream(text).take(n)) == letters_of(text.take(n)).len(),
        replayed(marker_stream(text).take(n), plain) == text.take(n),
    decreases n,
{
    let markers = marker_stream(text);
    if n == 0 {
        assert(markers.take(0) =~= Seq::<i32>::empty());
        assert(text.take(0) =~= Seq::<char>::empty());
        assert(letters_of(text.take(0)).len() == 0) by {
            lemma_letters_of_prefix(text.take(0), 0);
        }
    } else {
        lemma_replay_prefix(text, plain, n - 1);
        let c = text[n - 1];
        let before = text.take(n - 1);
        let marker = markers[n - 1];
        assert(text.take(n) =~= before.push(c));
        assert(markers.take(n) =~= markers.take(n - 1).push(marker));
        lemma_letters_push(before, c);
        lemma_case_marker_count_push(markers.take(n - 1), marker);
        lemma_replayed_push(markers.take(n - 1), marker, plain);
        if is_letter(c) {
            let taken = letters_of(before).len() as int;
            assert(text =~= text.take(n) + text.skip(n));
            Seq::filter_distributes_over_add(text.take(n), text.skip(n), |c: char| is_letter(c));
            assert(letters_of(text)[taken] == c);
            assert(plain[taken] == upper_of(c));
        } else {
            lemma_whitelisted_survives_codec(c);
        }
    }
}

/// Decoding the two streams of a plain text gives the text back, as long as
/// the key of the decoder has a character for every letter and agrees with
/// the key of the encoder on those characters.
pub proof fn lemma_streams_round_trip(text: Seq<char>, key: Seq<char>, decoder_key: Seq<char>)
    requires
        is_plain_text(text),
        letters_of(text).len() <= key.len(),
        letters_of(text).len() <= decoder_key.len(),
        forall|i: int| 0 <= i < letters_of(text).len() ==> key[i] == decoder_key[i],
    ensures
        decoded(cipher_stream(text, key), marker_stream(text), decoder_key) == Ok::<
            Seq<char>,
            CorruptArtifactError,
        >(text),
{
    let letters = letters_of(text);
    let cipher = cipher_stream(text, key);
    let plain = plain_stream(cipher, decoder_key);
    assert forall|i: int| 0 <= i < plain.len() implies plain[i] == upper_of(
        #[trigger] letters[i],
    ) by {
        broadcast use vstd::seq_lib::group_filter_ensures;

        assert(is_letter(letters[i]));
        lemma_shift_round_trip(letters[i], key[i]);
    }
    lemma_replay_prefix(text, plain, text.len() as int);
    assert(text.take(text.len() as int) =~= text);
    assert(marker_stream(text).take(text.len() as int) =~= marker_stream(text));
}

/// A plain text is ASCII, so transliteration leaves it as it is.
pub proof fn lemma_plain_text_is_ascii(text: Seq<char>)
    requires
        is_plain_text(text),
    ensures
        is_ascii_text(text),
{
    assert forall|i: int| 0 <= i < text.len() implies (#[trigger] text[i]) <= '\u{7f}' by {
        lemma_table_is_ascii();
    }
}

/// Every cipher letter is an upper-case letter or a blank, so a cipher
/// stream is one line.
pub proof fn lemma_cipher_stream_is_one_line(text: Seq<char>, key: Seq<char>)
    ensures
        is_one_line(cipher_stream(text, key)),
{
}

/// Reading the artifact of a plain text gives the text back, as long as the
/// key of the reader has a character for every letter and agrees with the
/// key of the writer on those characters.
pub proof fn lemma_artifact_round_trip(text: Seq<char>, key: Seq<char>, reader_key: Seq<char>)
    requires
        is_plain_text(text),
        letters_of(text).len() <= key.len(),
        letters_of(text).len() <= reader_key.len(),
        forall|i: int| 0 <= i < letters_of(text).len() ==> key[i] == reader_key[i],
    ensures
        read_back(artifact_text(cipher_stream(text, key), marker_stream(text)), reader_key) == Ok::<
            Seq<char>,
            CorruptArtifactError,
        >(text),
{
    let cipher = cipher_stream(text, key);
    let markers = marker_stream(text);
    lemma_cipher_stream_is_one_line(text, key);
    lemma_parts_of_artifact(cipher, markers);
    lemma_parsing_undoes_rendering(markers);
    lemma_streams_round_trip(text, key, reader_key);
}

/// The key that opens an artifact agrees with the key that sealed it on
/// every character that a letter of the text uses.
proof fn lemma_reader_key_agrees(text: Seq<char>, key: Seq<char>)
    requires
        expanded_key(key, stripped(text).len()) is Ok,
    ensures
        reader_key(key, letters_of(text).len()) is Ok,
        letters_of(text).len() <= expanded_key(key, stripped(text).len())->Ok_0.len(),
        letters_of(text).len() <= reader_key(key, letters_of(text).len())->Ok_0.len(),
        forall|i: int|
            0 <= i < letters_of(text).len() ==> expanded_key(key, stripped(text).len())->Ok_0[i]
                == reader_key(key, letters_of(text).len())->Ok_0[i],
{
    lemma_letters_are_content(text);
    let letters = letters_of(text).len();
    if stripped(text).len() > 0 && key.len() > letters {
        assert forall|i: int| 0 <= i < letters implies expanded_key(
            key,
            stripped(text).len(),
        )->Ok_0[i] == key[i] by {
            lemma_small_mod(i as nat, key.len());
        }
    }
}

/// Opening what was sealed gives the text back: whenever a plain text can be
/// sealed under a key, opening the artifact under the same key gives exactly
/// the text, case and punctuation included.
pub proof fn lemma_round_trip(text: Seq<char>, key: Seq<char>)
    requires
        is_plain_text(text),
        sealed(text, key) is Ok,
    ensures
        opened(sealed(text, key)->Ok_0, key) == Ok::<Seq<char>, CipherError>(text),
{
    lemma_letters_are_content(text);
    lemma_reader_key_agrees(text, key);
    let writer = expanded_key(key, stripped(text).len())->Ok_0;
    let reader = reader_key(key, letters_of(text).len())->Ok_0;
    let cipher = cipher_stream(text, writer);
    let markers = marker_stream(text);
    assert(cipher.len() == letters_of(text).len());
    lemma_cipher_stream_is_one_line(text, writer);
    lemma_parts_of_artifact(cipher, markers);
    lemma_parsing_undoes_rendering(markers);
    lemma_streams_round_trip(text, writer, reader);
}

/// A key that is not empty and has no more characters than a text has
/// letters seals the text.
pub proof fn lemma_key_within_letters_seals(text: Seq<char>, key: Seq<char>)
    requires
        0 < key.len() <= letters_of(text).len(),
    ensures
        sealed(text, key) is Ok,
{
    lemma_letters_are_content(text);
}

} // verus!
