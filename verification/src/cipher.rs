//! Whole translations: from a message to its artifact and back.

use vstd::prelude::*;
use crate::artifact::{artifact_parts, artifact_text, split_artifact, write_artifact};
use crate::config::Config;
use crate::decode::{decode_streams, decoded};
use crate::encode::{
    cipher_stream, encode_text, lemma_letters_push, letters_of, marker_stream,
};
use crate::error::{CipherError, CorruptArtifactError, KeyError};
use crate::markers::{parse_punc_symbols, parsed_markers};
use crate::key::{expand_key, expanded_key, strip_punctuation, stripped};
use crate::text::result_view;
use crate::translit::{is_ascii_text, transliterate, transliteration};

verus! {

/// The artifact of an ASCII text under a key: the key is expanded to the
/// length of the text's content, and the two streams of the text under the
/// expanded key are written out.
pub open spec fn sealed(text: Seq<char>, key: Seq<char>) -> Result<Seq<char>, KeyError> {
    match expanded_key(key, stripped(text).len()) {
        Err(e) => Err(e),
        Ok(expanded) => Ok(artifact_text(cipher_stream(text, expanded), marker_stream(text))),
    }
}

/// The key for decoding `letters` cipher letters: the key expanded to that
/// many characters.  A key that is longer than that serves as it is, since
/// decoding stops at the shorter of cipher letters and key.
pub open spec fn reader_key(key: Seq<char>, letters: nat) -> Result<Seq<char>, KeyError> {
    if key.len() > letters {
        Ok(key)
    } else {
        expanded_key(key, letters)
    }
}

/// The message of an artifact under a key: the artifact is split, its marker
/// list is read, the key is expanded to the number of cipher letters, and the
/// streams are decoded.  The first step that fails gives the error.
pub open spec fn opened(artifact: Seq<char>, key: Seq<char>) -> Result<Seq<char>, CipherError> {
    match artifact_parts(artifact) {
        None => Err(CipherError::CorruptArtifact(CorruptArtifactError::MissingSeparator)),
        Some((cipher, list)) => match parsed_markers(list) {
            None => Err(CipherError::CorruptArtifact(CorruptArtifactError::MalformedMarker)),
            Some(markers) => match reader_key(key, cipher.len()) {
                Err(e) => Err(CipherError::Key(e)),
                Ok(expanded) => match decoded(cipher, markers, expanded) {
                    Err(e) => Err(CipherError::CorruptArtifact(e)),
                    Ok(text) => Ok(text),
                },
            },
        },
    }
}

/// A failure to seal, as a failure to translate.
pub open spec fn as_cipher_result(r: Result<Seq<char>, KeyError>) -> Result<
    Seq<char>,
    CipherError,
> {
    match r {
        Ok(text) => Ok(text),
        Err(e) => Err(CipherError::Key(e)),
    }
}

/// Sealing succeeds exactly when the text has no content, or the key is not
/// empty and not longer than the content.
pub proof fn lemma_sealing_succeeds(text: Seq<char>, key: Seq<char>)
    ensures
        sealed(text, key) is Ok <==> (stripped(text).len() == 0 || 0 < key.len() <= stripped(
            text,
        ).len()),
{
}

/// No letter is stripped, so a text has at least as much content as it has
/// letters.
pub proof fn lemma_letters_are_content(text: Seq<char>)
    ensures
        letters_of(text).len() <= stripped(text).len(),
    decreases text.len(),
{
    reveal(Seq::filter);
    if text.len() > 0 {
        lemma_letters_are_content(text.drop_last());
        assert(text.drop_last().push(text.last()) =~= text);
        lemma_letters_push(text.drop_last(), text.last());
    }
}

/// Encodes an ASCII text under a key and writes the artifact.
pub fn seal(text: &str, key: String) -> (artifact: Result<String, KeyError>)
    ensures
        result_view(artifact) == sealed(text@, key@),
{
    let content = strip_punctuation(text);
    let length = content.as_str().unicode_len();
    match expand_key(key, length) {
        Err(e) => Err(e),
        Ok(expanded) => {
            proof {
                lemma_letters_are_content(text@);
            }
            match encode_text(text, expanded.as_str()) {
                Err(e) => Err(e),
                Ok((cipher, markers)) => Ok(write_artifact(cipher.as_str(), &markers)),
            }
        },
    }
}

/// Encodes a message under a key and writes the artifact: the message is
/// transliterated to ASCII and sealed.  A message that is ASCII already is
/// sealed as it is.
pub fn encode(message: &String, key: String) -> (artifact: Result<String, KeyError>)
    ensures
        result_view(artifact) == sealed(transliteration(message@), key@),
        is_ascii_text(message@) ==> result_view(artifact) == sealed(message@, key@),
{
    let ascii = transliterate(message.as_str());
    seal(ascii.as_str(), key)
}

/// Reads an artifact and decodes it under a key.
pub fn decode(artifact: &String, key: String) -> (message: Result<String, CipherError>)
    ensures
        result_view(message) == opened(artifact@, key@),
{
    match split_artifact(artifact.as_str()) {
        Err(e) => Err(CipherError::CorruptArtifact(e)),
        Ok((cipher, list)) => match parse_punc_symbols(list.as_str()) {
            Err(e) => Err(CipherError::CorruptArtifact(e)),
            Ok(markers) => {
                let length = cipher.as_str().unicode_len();
                let expanded = if key.as_str().unicode_len() > length {
                    Ok(key)
                } else {
                    expand_key(key, length)
                };
                match expanded {
                    Err(e) => Err(CipherError::Key(e)),
                    Ok(expanded) => match decode_streams(
                        cipher.as_str(),
                        &markers,
                        expanded.as_str(),
                    ) {
                        Err(e) => Err(CipherError::CorruptArtifact(e)),
                        Ok(text) => Ok(text),
                    },
                }
            },
        },
    }
}

/// What one run writes to its output file: the artifact of the contents if
/// the configuration asks for encoding, and the message that the contents
/// hold if not.
pub fn translate(config: &Config, contents: &String) -> (output: Result<String, CipherError>)
    ensures
        config.encodes() ==> result_view(output) == as_cipher_result(
            sealed(transliteration(contents@), config.key@),
        ),
        config.encodes() && is_ascii_text(contents@) ==> result_view(output) == as_cipher_result(
            sealed(contents@, config.key@),
        ),
        !config.encodes() ==> result_view(output) == opened(contents@, config.key@),
{
    if config.is_encode() {
        match encode(contents, config.key.clone()) {
            Ok(artifact) => Ok(artifact),
            Err(e) => Err(CipherError::Key(e)),
        }
    } else {
        decode(contents, config.key.clone())
    }
}

} // verus!
