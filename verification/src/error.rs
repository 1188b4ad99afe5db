//! The errors of the cipher.

use vstd::prelude::*;

verus! {

/// Which argument of the command line is missing.
#[derive(Debug, Clone, Copy, PartialEq, Eq, Structural)]
pub enum ArgumentError {
    /// No input file was named.
    MissingInputFile,
    /// No direction was given.
    MissingDirection,
    /// No key was given.
    MissingKey,
}

/// Why a key cannot serve a message.
#[derive(Debug, Clone, Copy, PartialEq, Eq, Structural)]
pub enum KeyError {
    /// The key has no character, and there is content to encode.
    Empty,
    /// The key is longer than the encodable content.
    TooLong,
    /// The key has fewer characters than the message has letters.
    TooShort,
}

/// Why a text is no artifact that the encoder wrote.
#[derive(Debug, Clone, Copy, PartialEq, Eq, Structural)]
pub enum CorruptArtifactError {
    /// The line of dashes between cipher letters and markers is absent.
    MissingSeparator,
    /// An entry of the marker list is no 32-bit integer.
    MalformedMarker,
    /// The markers end before every cipher letter has found its case marker.
    MarkersExhausted,
}

/// Why a translation failed.
#[derive(Debug, Clone, Copy, PartialEq, Eq, Structural)]
pub enum CipherError {
    Key(KeyError),
    CorruptArtifact(CorruptArtifactError),
}

impl ArgumentError {
    pub open spec fn message_text(self) -> Seq<char> {
        match self {
            ArgumentError::MissingInputFile => "No input file given- Usage: cargo run <input file> <e/d> <key>"@,
            ArgumentError::MissingDirection => "Not enough information- Usage: cargo run <input file> <e/d> <key>"@,
            ArgumentError::MissingKey => "Not enough information- Usage: cargo run <input file> <e/d> <key>"@,
        }
    }

    /// A sentence for the operator, with the usage.
    pub fn message(&self) -> (text: &'static str)
        ensures
            text@ == self.message_text(),
    {
        match self {
            ArgumentError::MissingInputFile => "No input file given- Usage: cargo run <input file> <e/d> <key>",
            ArgumentError::MissingDirection => "Not enough information- Usage: cargo run <input file> <e/d> <key>",
            ArgumentError::MissingKey => "Not enough information- Usage: cargo run <input file> <e/d> <key>",
        }
    }
}

impl KeyError {
    pub open spec fn message_text(self) -> Seq<char> {
        match self {
            KeyError::Empty => "key is empty"@,
            KeyError::TooLong => "key longer than encodable content"@,
            KeyError::TooShort => "key shorter than the letters to encode"@,
        }
    }

    /// A sentence for the operator.
    pub fn message(&self) -> (text: &'static str)
        ensures
            text@ == self.message_text(),
    {
        match self {
            KeyError::Empty => "key is empty",
            KeyError::TooLong => "key longer than encodable content",
            KeyError::TooShort => "key shorter than the letters to encode",
        }
    }
}

impl CorruptArtifactError {
    pub open spec fn message_text(self) -> Seq<char> {
        match self {
            CorruptArtifactError::MissingSeparator => "corrupt artifact: separator line not found"@,
            CorruptArtifactError::MalformedMarker => "corrupt artifact: marker list holds a malformed integer"@,
            CorruptArtifactError::MarkersExhausted => "corrupt artifact: marker list ends before the cipher letters do"@,
        }
    }

    /// A sentence for the operator.
    pub fn message(&self) -> (text: &'static str)
        ensures
            text@ == self.message_text(),
    {
        match self {
            CorruptArtifactError::MissingSeparator => "corrupt artifact: separator line not found",
            CorruptArtifactError::MalformedMarker => "corrupt artifact: marker list holds a malformed integer",
            CorruptArtifactError::MarkersExhausted => "corrupt artifact: marker list ends before the cipher letters do",
        }
    }
}

impl CipherError {
    pub open spec fn message_text(self) -> Seq<char> {
        match self {
            CipherError::Key(e) => e.message_text(),
            CipherError::CorruptArtifact(e) => e.message_text(),
        }
    }

    /// A sentence for the operator.
    pub fn message(&self) -> (text: &'static str)
        ensures
            text@ == self.message_text(),
    {
        match self {
            CipherError::Key(e) => e.message(),
            CipherError::CorruptArtifact(e) => e.message(),
        }
    }

    /// Whether the input was no well-formed artifact.
    pub fn is_corrupt_artifact(&self) -> (corrupt: bool)
        ensures
            corrupt == (*self is CorruptArtifact),
    {
        match self {
            CipherError::Key(_) => false,
            CipherError::CorruptArtifact(_) => true,
        }
    }
}

} // verus!
