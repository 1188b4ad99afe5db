//! The punctuation codec: a fixed table of non-letter characters, each with a
//! code of its own, and one code for everything the table does not hold.

use vstd::prelude::*;
use crate::alphabet::is_letter;

verus! {

/// The characters that keep their identity through the cipher, in code
/// order: the character at index `k` has code `k + 2`.  The codes 0 and 1
/// below them mark the case of a letter.
pub const WHITELIST: [char; 45] = [
    ' ', '!', '"', '#', '$', '%', '&', '\'', '(', ')', '*', '+', ',', '-', '.', '/',
    ':', ';', '<', '=', '>', '?', '@',
    '[', '\\', ']', '^', '_', '`',
    '{', '|', '}', '~',
    '0', '1', '2', '3', '4', '5', '6', '7', '8', '9',
    '\n', '\r',
];

/// The code of every character that is neither a letter nor in the table.
pub const UNRECOGNIZED: i32 = 47;

/// The character that stands for a code without a character of its own.
pub const SENTINEL_GLYPH: char = '\u{1515}';

/// Whether the table holds `c`.
pub open spec fn is_whitelisted(c: char) -> bool {
    WHITELIST@.contains(c)
}

/// The code of a character: its place in the table, or `UNRECOGNIZED`.
pub open spec fn punctuation_code(c: char) -> int {
    if is_whitelisted(c) {
        WHITELIST@.index_of(c) + 2
    } else {
        47
    }
}

/// The character of a code: the table's entry, or the sentinel glyph.
pub open spec fn punctuation_char(code: int) -> char {
    if 2 <= code <= 46 {
        WHITELIST@[code - 2]
    } else {
        '\u{1515}'
    }
}

/// The table's codes computed from the blocks of ASCII that the table is
/// made of.  Only the proofs use it: it shows that no character occurs twice.
spec fn block_code(c: char) -> int {
    if ' ' <= c <= '/' {
        c as int - ' ' as int + 2
    } else if ':' <= c <= '@' {
        c as int - ':' as int + 18
    } else if '[' <= c <= '`' {
        c as int - '[' as int + 25
    } else if '{' <= c <= '~' {
        c as int - '{' as int + 31
    } else if '0' <= c <= '9' {
        c as int - '0' as int + 35
    } else if c == '\n' {
        45
    } else if c == '\r' {
        46
    } else {
        47
    }
}

proof fn lemma_table_in_blocks()
    ensures
        WHITELIST@.len() == 45,
        forall|k: int| 0 <= k < 45 ==> block_code(#[trigger] WHITELIST@[k]) == k + 2,
{
}

/// No character stands twice in the table.
pub proof fn lemma_table_distinct()
    ensures
        WHITELIST@.len() == 45,
        WHITELIST@.no_duplicates(),
{
    lemma_table_in_blocks();
}

/// Encodes a non-letter: a character of the table gets its code, between 2
/// and 46, and every other character gets 47.
pub fn encode_punctuation(punc: char) -> (code: i32)
    ensures
        code == punctuation_code(punc),
        2 <= code <= 47,
        code == UNRECOGNIZED <==> !is_whitelisted(punc),
{
    let mut i: usize = 0;
    while i < 45
        invariant
            i <= 45,
            WHITELIST@.len() == 45,
            forall|j: int| 0 <= j < i ==> WHITELIST@[j] != punc,
        decreases 45 - i,
    {
        if WHITELIST[i] == punc {
            proof {
                lemma_table_distinct();
                assert(WHITELIST@[i as int] == punc);
            }
            return (i + 2) as i32;
        }
        i += 1;
    }
    UNRECOGNIZED
}

/// Decodes a marker: a code between 2 and 46 gives its character, and every
/// other number gives the sentinel glyph.
pub fn decode_punctuation(num: i32) -> (punc: char)
    ensures
        punc == punctuation_char(num as int),
{
    if 2 <= num && num <= 46 {
        WHITELIST[(num - 2) as usize]
    } else {
        SENTINEL_GLYPH
    }
}

/// A character of the table comes back from its code.
pub proof fn lemma_whitelisted_survives_codec(c: char)
    requires
        is_whitelisted(c),
    ensures
        2 <= punctuation_code(c) <= 46,
        punctuation_char(punctuation_code(c)) == c,
{
    lemma_table_distinct();
}

/// A code of the table comes back from its character.
pub proof fn lemma_code_survives_codec(code: int)
    requires
        2 <= code <= 46,
    ensures
        is_whitelisted(punctuation_char(code)),
        punctuation_code(punctuation_char(code)) == code,
{
    lemma_table_distinct();
    assert(WHITELIST@[code - 2] == punctuation_char(code));
}

/// A character outside the table has the code 47, and 47, like every number
/// that is no code of the table, decodes to the sentinel glyph.
pub proof fn lemma_unrecognized_is_tagged(c: char, code: int)
    requires
        !is_whitelisted(c),
        !(2 <= code <= 46),
    ensures
        punctuation_code(c) == UNRECOGNIZED,
        punctuation_char(UNRECOGNIZED as int) == SENTINEL_GLYPH,
        punctuation_char(code) == SENTINEL_GLYPH,
{
}

/// No punctuation code is 0 or 1, the two markers of a letter's case.
pub proof fn lemma_codes_avoid_case_markers(c: char)
    ensures
        2 <= punctuation_code(c) <= 47,
{
    lemma_table_distinct();
}

/// Every character of the table is ASCII.
pub proof fn lemma_table_is_ascii()
    ensures
        forall|c: char| is_whitelisted(c) ==> c <= '\u{7f}',
{
    lemma_table_in_blocks();
    assert forall|c: char| is_whitelisted(c) implies c <= '\u{7f}' by {
        let k = WHITELIST@.index_of(c);
        assert(block_code(WHITELIST@[k]) == k + 2);
    }
}

/// The table holds no letter and not the sentinel glyph.
pub proof fn lemma_table_holds_no_letter(c: char)
    requires
        is_whitelisted(c),
    ensures
        !is_letter(c),
        c != SENTINEL_GLYPH,
{
    lemma_table_in_blocks();
    let k = WHITELIST@.index_of(c);
    assert(block_code(WHITELIST@[k]) == k + 2);
}

} // verus!
