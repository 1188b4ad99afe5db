//! Key expansion: a short key repeated until it covers the content of a
//! message.

use vstd::prelude::*;
use vstd::arithmetic::div_mod::{lemma_mod_sub_multiples_vanish, lemma_small_mod};
use crate::error::KeyError;
use crate::text::{from_chars, to_chars};
use crate::translit::{is_ascii_text, transliterate, transliteration};

verus! {

/// The characters that do not count as content of a message.
pub open spec fn is_stripped(c: char) -> bool {
    c == '(' || c == ')' || c == '[' || c == ']' || c == ',' || c == '"' || c == '.'
        || c == ';' || c == ':' || c == '\'' || c == ' ' || c == '\n' || c == '\r'
}

/// `text` without the characters that do not count as content.
pub open spec fn stripped(text: Seq<char>) -> Seq<char> {
    text.filter(|c: char| !is_stripped(c))
}

/// The number of characters that a key has to cover: the length of the
/// transliterated message without the stripped characters.
pub open spec fn content_length(message: Seq<char>) -> nat {
    stripped(transliteration(message)).len()
}

/// `key` repeated from its start, over and over, up to `length` characters.
pub open spec fn cyclic_key(key: Seq<char>, length: nat) -> Seq<char> {
    Seq::new(length, |i: int| key[i % (key.len() as int)])
}

/// The key for a content of `length` characters.  Without content the
/// expanded key is empty, whatever the key.  Otherwise an empty key and a key
/// longer than the content are refused, and any other key is repeated
/// cyclically to exactly `length` characters.
pub open spec fn expanded_key(key: Seq<char>, length: nat) -> Result<Seq<char>, KeyError> {
    if length == 0 {
        Ok(Seq::empty())
    } else if key.len() == 0 {
        Err(KeyError::Empty)
    } else if key.len() > length {
        Err(KeyError::TooLong)
    } else {
        Ok(cyclic_key(key, length))
    }
}

/// The growth rule of the expansion, step by step: while the buffer is
/// shorter than `target`, the character under the read cursor is appended to
/// it and the cursor moves on by one, starting over at 0 when it has reached
/// `target`.
pub open spec fn grown(buffer: Seq<char>, cursor: int, target: nat) -> Seq<char>
    decreases target - buffer.len(),
{
    if buffer.len() >= target {
        buffer
    } else {
        let at = if cursor == target { 0 } else { cursor };
        grown(buffer.push(buffer[at]), at + 1, target)
    }
}

proof fn lemma_growth_from(key: Seq<char>, buffer: Seq<char>, target: nat)
    requires
        0 < key.len() <= buffer.len() <= target,
        buffer == cyclic_key(key, buffer.len()),
    ensures
        grown(buffer, buffer.len() - key.len(), target) == cyclic_key(key, target),
    decreases target - buffer.len(),
{
    if buffer.len() < target {
        let cursor = buffer.len() - key.len();
        let next = buffer.push(buffer[cursor]);
        lemma_mod_sub_multiples_vanish(buffer.len() as int, key.len() as int);
        assert(next =~= cyclic_key(key, next.len()));
        lemma_growth_from(key, next, target);
    }
}

/// The growth rule, started on a key that is not empty and not longer than
/// the target, ends in the cyclic repetition of that key: the read cursor
/// trails the end of the buffer by the key's length, so it never reaches the
/// target and never starts over.
pub proof fn lemma_growth_is_cyclic(key: Seq<char>, target: nat)
    requires
        0 < key.len() <= target,
    ensures
        grown(key, 0, target) == cyclic_key(key, target),
{
    assert forall|i: int| 0 <= i < key.len() implies key[i] == cyclic_key(key, key.len())[i] by {
        lemma_small_mod(i as nat, key.len());
    }
    assert(key =~= cyclic_key(key, key.len()));
    lemma_growth_from(key, key, target);
}

/// An expanded key is exactly as long as the content it was made for.
pub proof fn lemma_expanded_key_length(key: Seq<char>, length: nat)
    requires
        expanded_key(key, length) is Ok,
    ensures
        expanded_key(key, length)->Ok_0.len() == length,
{
}

/// Expansion succeeds exactly when there is no content, or the key is not
/// empty and not longer than the content.
pub proof fn lemma_expansion_succeeds(key: Seq<char>, length: nat)
    ensures
        expanded_key(key, length) is Ok <==> (length == 0 || 0 < key.len() <= length),
{
}

/// Character `i` of an expanded key is character `i mod n` of a key of `n`
/// characters, so two expansions of one key agree wherever both reach.
pub proof fn lemma_expansions_agree(key: Seq<char>, shorter: nat, longer: nat, i: int)
    requires
        0 < key.len() <= shorter <= longer,
        0 <= i < shorter,
    ensures
        expanded_key(key, shorter)->Ok_0[i] == expanded_key(key, longer)->Ok_0[i],
        expanded_key(key, shorter)->Ok_0[i] == key[i % (key.len() as int)],
{
}

/// Removes from `text` the characters that do not count as content:
/// parentheses, square brackets, comma, double and single quote, period,
/// semicolon, colon, space, line feed and carriage return.
pub fn strip_punctuation(text: &str) -> (content: String)
    ensures
        content@ == stripped(text@),
{
    let chars = to_chars(text);
    let mut content = String::new();
    let mut i: usize = 0;
    while i < chars.len()
        invariant
            i <= chars.len(),
            chars@ == text@,
            content@ == stripped(chars@.take(i as int)),
        decreases chars.len() - i,
    {
        let c = chars[i];
        proof {
            assert(chars@.take(i + 1) == chars@.take(i as int).push(c));
            chars@.take(i as int).lemma_filter_push(c, |c: char| !is_stripped(c));
        }
        if !(c == '(' || c == ')' || c == '[' || c == ']' || c == ',' || c == '"' || c == '.'
            || c == ';' || c == ':' || c == '\'' || c == ' ' || c == '\n' || c == '\r') {
            content.push(c);
        }
        i += 1;
    }
    assert(chars@.take(chars.len() as int) == chars@);
    content
}

/// Transliterates the message to ASCII and removes the characters that do
/// not count as content.  Of a message that is ASCII already, only the
/// removal is left.
pub fn remove_punctuation(message: &String) -> (content: String)
    ensures
        content@ == stripped(transliteration(message@)),
        is_ascii_text(message@) ==> content@ == stripped(message@),
{
    let ascii = transliterate(message.as_str());
    strip_punctuation(ascii.as_str())
}

/// Expands `key` for a content of `length` characters.
///
/// The expansion appends to the key, one at a time, the character under a
/// read cursor that starts at the key's first character, until the key has
/// `length` characters.
pub fn expand_key(key: String, length: usize) -> (expanded: Result<String, KeyError>)
    ensures
        match expanded {
            Ok(k) => expanded_key(key@, length as nat) == Ok::<Seq<char>, KeyError>(k@),
            Err(e) => expanded_key(key@, length as nat) == Err::<Seq<char>, KeyError>(e),
        },
        expanded matches Ok(k) ==> k@.len() == length,
        expanded matches Ok(k) ==> length > 0 ==> k@ == grown(key@, 0, length as nat),
{
    if length == 0 {
        return Ok(String::new());
    }
    let mut buffer = to_chars(key.as_str());
    let key_length = buffer.len();
    if key_length == 0 {
        return Err(KeyError::Empty);
    }
    if key_length > length {
        return Err(KeyError::TooLong);
    }
    proof {
        lemma_growth_is_cyclic(key@, length as nat);
        assert forall|i: int| 0 <= i < key@.len() implies key@[i] == cyclic_key(
            key@,
            key@.len(),
        )[i] by {
            lemma_small_mod(i as nat, key@.len());
        }
        assert(buffer@ =~= cyclic_key(key@, buffer.len() as nat));
    }
    let mut cursor: usize = 0;
    while buffer.len() != length
        invariant
            0 < key_length <= buffer.len() <= length,
            key_length == key@.len(),
            cursor == buffer.len() - key_length,
            buffer@ == cyclic_key(key@, buffer.len() as nat),
        decreases length - buffer.len(),
    {
        if cursor == length {
            cursor = 0;
        }
        let c = buffer[cursor];
        proof {
            lemma_mod_sub_multiples_vanish(buffer.len() as int, key_length as int);
            assert(buffer@.push(c) =~= cyclic_key(key@, (buffer.len() + 1) as nat));
        }
        buffer.push(c);
        cursor += 1;
    }
    Ok(from_chars(&buffer))
}

/// Expands `key` for `message`: for as many characters as the
/// transliterated message holds besides the stripped ones.
pub fn generate_key(key: String, message: &String) -> (expanded: Result<String, KeyError>)
    ensures
        match expanded {
            Ok(k) => expanded_key(key@, content_length(message@)) == Ok::<Seq<char>, KeyError>(k@),
            Err(e) => expanded_key(key@, content_length(message@)) == Err::<Seq<char>, KeyError>(e),
        },
        expanded matches Ok(k) ==> k@.len() == content_length(message@),
        is_ascii_text(message@) ==> content_length(message@) == stripped(message@).len(),
{
    let content = remove_punctuation(message);
    let length = content.as_str().unicode_len();
    expand_key(key, length)
}

} // verus!
