//! Transliteration of Unicode text to plain ASCII.

use vstd::prelude::*;

verus! {

/// The ASCII transliteration of a text: what `unidecode::unidecode` returns
/// for it.  The mapping is a table of some sixty-five thousand entries, so it
/// has a name here and no definition.
pub uninterp spec fn transliteration(text: Seq<char>) -> Seq<char>;

/// Every character of `text` is one of the 128 of ASCII.
pub open spec fn is_ascii_text(text: Seq<char>) -> bool {
    forall|i: int| 0 <= i < text.len() ==> (#[trigger] text[i]) <= '\u{7f}'
}

/// Calls `unidecode::unidecode`.  Trusted, not proved: the result is the
/// transliteration of the message; it is ASCII throughout; and a message that
/// is ASCII already comes back unchanged, since the crate maps each of the 128
/// ASCII characters to itself and builds its result character by character.
#[verifier::external_body]
pub(crate) fn transliterate(message: &str) -> (ascii: String)
    ensures
        ascii@ == transliteration(message@),
        is_ascii_text(ascii@),
        is_ascii_text(message@) ==> ascii@ == message@,
{
    unidecode::unidecode(message)
}

} // verus!
