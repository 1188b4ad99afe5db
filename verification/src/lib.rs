//! A Vigenère cipher that keeps case and punctuation.
//!
//! Encoding splits a message into two parallel streams: the substituted
//! letters, and one marker per character of the message that records either the
//! case of a letter or the identity of a non-letter.  Decoding replays the
//! marker stream over the cipher letters and restores the message exactly.

pub mod alphabet;
pub mod artifact;
pub mod artifact_laws;
pub mod cipher;
pub mod config;
pub mod decode;
pub mod encode;
pub mod error;
pub mod key;
pub mod markers;
pub mod punctuation;
pub mod roundtrip;
pub mod text;
pub mod translit;

pub use alphabet::{alpha_to_int, int_to_alpha};
pub use artifact::{split_artifact, to_english, write_artifact};
pub use cipher::{decode, encode, seal, translate};
pub use config::Config;
pub use decode::decode_streams;
pub use encode::{encode_text, to_vigenere};
pub use error::{ArgumentError, CipherError, CorruptArtifactError, KeyError};
pub use markers::{parse_punc_symbols, render_markers};
pub use key::{expand_key, generate_key, remove_punctuation, strip_punctuation};
pub use punctuation::{decode_punctuation, encode_punctuation};
