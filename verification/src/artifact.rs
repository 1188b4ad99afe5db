//! The artifact: the text that holds both streams of an encoded message.
//!
//! An artifact is the cipher letters, a line of twenty dashes, the marker
//! list, and a line feed.

use vstd::prelude::*;
use crate::decode::{decode_streams, decoded};
use crate::error::CorruptArtifactError;
use crate::markers::{parse_punc_symbols, parsed_markers, render_markers, rendered_markers};
use crate::text::{from_chars, result_view, to_chars};

verus! {

/// The line between the cipher letters and the marker list: a line feed,
/// twenty dashes and a line feed.
pub const SEPARATOR: &'static str = "\n--------------------\n";

/// The characters of the separator.
pub open spec fn separator() -> Seq<char> {
    "\n--------------------\n"@
}

// ----- writing -----

/// The artifact of two streams.
pub open spec fn artifact_text(cipher: Seq<char>, markers: Seq<i32>) -> Seq<char> {
    cipher + separator() + rendered_markers(markers) + seq!['\n']
}

/// Writes the artifact of two streams.
pub fn write_artifact(cipher: &str, markers: &Vec<i32>) -> (artifact: String)
    ensures
        artifact@ == artifact_text(cipher@, markers@),
{
    let mut artifact = String::from_str(cipher);
    artifact.append(SEPARATOR);
    let list = render_markers(markers);
    artifact.append(list.as_str());
    artifact.push('\n');
    assert(artifact@ =~= artifact_text(cipher@, markers@));
    artifact
}

// ----- reading -----

/// `text` without its carriage returns.
pub open spec fn without_carriage_returns(text: Seq<char>) -> Seq<char> {
    text.filter(|c: char| c != '\r')
}

/// Whether the separator stands in `text` at index `i`.
pub open spec fn separator_at(text: Seq<char>, i: int) -> bool {
    0 <= i && i + separator().len() <= text.len() && text.subrange(
        i,
        i + separator().len() as int,
    ) == separator()
}

/// Whether the separator stands in `text` at `i` and nowhere before.
pub open spec fn first_separator_at(text: Seq<char>, i: int) -> bool {
    separator_at(text, i) && forall|j: int| j < i ==> !separator_at(text, j)
}

/// The index of the first separator in `text`, if there is one.
#[verifier::opaque]
pub open spec fn first_separator(text: Seq<char>) -> Option<int> {
    if exists|i: int| separator_at(text, i) {
        Some(choose|i: int| first_separator_at(text, i))
    } else {
        None
    }
}

/// The cipher letters and the marker list of an artifact.  Carriage returns
/// do not count.  The cipher letters are what stands before the first
/// separator; the marker list is what follows it, up to a second separator
/// if there is one.  Without a separator there are no parts.
pub open spec fn artifact_parts(artifact: Seq<char>) -> Option<(Seq<char>, Seq<char>)> {
    let text = without_carriage_returns(artifact);
    match first_separator(text) {
        None => None,
        Some(i) => {
            let rest = text.skip(i + separator().len());
            match first_separator(rest) {
                None => Some((text.take(i), rest)),
                Some(j) => Some((text.take(i), rest.take(j))),
            }
        },
    }
}

/// The separator that stands before every other is the first separator.
pub proof fn lemma_first_separator(text: Seq<char>, i: int)
    requires
        first_separator_at(text, i),
    ensures
        first_separator(text) == Some(i),
{
    reveal(first_separator);
    let chosen = choose|k: int| first_separator_at(text, k);
    assert(first_separator_at(text, chosen));
    assert(!(chosen < i));
    assert(!(i < chosen));
}

/// A text in which the separator stands nowhere has no first separator.
pub proof fn lemma_no_separator(text: Seq<char>)
    requires
        forall|j: int| !separator_at(text, j),
    ensures
        first_separator(text) is None,
{
    reveal(first_separator);
}

/// What the first separator is: the separator stands there and nowhere
/// before; and where there is none, the separator stands nowhere.
pub proof fn lemma_first_separator_is_first(text: Seq<char>)
    ensures
        match first_separator(text) {
            Some(i) => first_separator_at(text, i),
            None => forall|j: int| !separator_at(text, j),
        },
{
    reveal(first_separator);
    if exists|i: int| separator_at(text, i) {
        let some = choose|i: int| separator_at(text, i);
        lemma_least_separator(text, some);
    }
}

proof fn lemma_least_separator(text: Seq<char>, i: int)
    requires
        separator_at(text, i),
    ensures
        exists|k: int| first_separator_at(text, k),
    decreases i,
{
    if exists|j: int| j < i && separator_at(text, j) {
        let j = choose|j: int| j < i && separator_at(text, j);
        lemma_least_separator(text, j);
    } else {
        assert(first_separator_at(text, i));
    }
}

fn drop_carriage_returns(chars: &Vec<char>) -> (kept: Vec<char>)
    ensures
        kept@ == without_carriage_returns(chars@),
{
    let mut kept: Vec<char> = Vec::new();
    let mut i: usize = 0;
    while i < chars.len()
        invariant
            i <= chars.len(),
            kept@ == without_carriage_returns(chars@.take(i as int)),
        decreases chars.len() - i,
    {
        let c = chars[i];
        proof {
            assert(chars@.take(i + 1) == chars@.take(i as int).push(c));
            chars@.take(i as int).lemma_filter_push(c, |c: char| c != '\r');
        }
        if c != '\r' {
            kept.push(c);
        }
        i += 1;
    }
    assert(chars@.take(chars.len() as int) == chars@);
    kept
}

fn has_separator_at(text: &Vec<char>, pattern: &Vec<char>, i: usize) -> (found: bool)
    requires
        pattern@ == separator(),
        i + pattern.len() <= text.len(),
    ensures
        found == separator_at(text@, i as int),
{
    let mut k: usize = 0;
    while k < pattern.len()
        invariant
            k <= pattern.len(),
            pattern@ == separator(),
            i + pattern.len() <= text.len(),
            forall|j: int| 0 <= j < k ==> text@[i + j] == pattern@[j],
        decreases pattern.len() - k,
    {
        if text[i + k] != pattern[k] {
            assert(text@.subrange(i as int, i + pattern.len())[k as int] != separator()[k as int]);
            return false;
        }
        k += 1;
    }
    assert(text@.subrange(i as int, i + pattern.len()) =~= separator());
    true
}

fn find_separator(text: &Vec<char>, pattern: &Vec<char>) -> (found: Option<usize>)
    requires
        pattern@ == separator(),
    ensures
        match found {
            Some(i) => first_separator(text@) == Some(i as int) && i + separator().len()
                <= text.len(),
            None => first_separator(text@) is None,
        },
{
    if text.len() < pattern.len() {
        proof {
            lemma_no_separator(text@);
        }
        return None;
    }
    let last = text.len() - pattern.len();
    let mut i: usize = 0;
    while i < last
        invariant
            pattern@ == separator(),
            last == text.len() - pattern.len(),
            i <= last,
            forall|j: int| j < i ==> !separator_at(text@, j),
        decreases last - i,
    {
        if has_separator_at(text, pattern, i) {
            proof {
                lemma_first_separator(text@, i as int);
            }
            return Some(i);
        }
        i += 1;
    }
    if has_separator_at(text, pattern, last) {
        proof {
            lemma_first_separator(text@, last as int);
        }
        Some(last)
    } else {
        proof {
            lemma_no_separator(text@);
        }
        None
    }
}

fn copy_range(chars: &Vec<char>, from: usize, to: usize) -> (part: Vec<char>)
    requires
        from <= to <= chars.len(),
    ensures
        part@ == chars@.subrange(from as int, to as int),
{
    let mut part: Vec<char> = Vec::new();
    let mut i: usize = from;
    while i < to
        invariant
            from <= i <= to <= chars.len(),
            part@ == chars@.subrange(from as int, i as int),
        decreases to - i,
    {
        part.push(chars[i]);
        assert(part@ =~= chars@.subrange(from as int, i + 1));
        i += 1;
    }
    part
}

/// The two parts of a result, each taken by its view.
pub open spec fn parts_view(r: Result<(String, String), CorruptArtifactError>) -> Option<
    (Seq<char>, Seq<char>),
> {
    match r {
        Ok((cipher, list)) => Some((cipher@, list@)),
        Err(_) => None,
    }
}

/// Splits an artifact into its cipher letters and its marker list.
pub fn split_artifact(artifact: &str) -> (parts: Result<(String, String), CorruptArtifactError>)
    ensures
        parts_view(parts) == artifact_parts(artifact@),
        parts matches Err(e) ==> e == CorruptArtifactError::MissingSeparator,
{
    let raw = to_chars(artifact);
    let text = drop_carriage_returns(&raw);
    let pattern = to_chars(SEPARATOR);
    match find_separator(&text, &pattern) {
        None => Err(CorruptArtifactError::MissingSeparator),
        Some(i) => {
            let cipher = copy_range(&text, 0, i);
            let rest = copy_range(&text, i + pattern.len(), text.len());
            assert(cipher@ == text@.take(i as int));
            assert(rest@ == text@.skip(i + separator().len()));
            match find_separator(&rest, &pattern) {
                None => Ok((from_chars(&cipher), from_chars(&rest))),
                Some(j) => {
                    let list = copy_range(&rest, 0, j);
                    assert(list@ == rest@.take(j as int));
                    Ok((from_chars(&cipher), from_chars(&list)))
                },
            }
        },
    }
}

/// What decoding an artifact with an expanded key gives: the message, or the
/// refusal of an artifact without separator, with a malformed marker list, or
/// with too few case markers, in this order.
pub open spec fn read_back(artifact: Seq<char>, key: Seq<char>) -> Result<
    Seq<char>,
    CorruptArtifactError,
> {
    match artifact_parts(artifact) {
        None => Err(CorruptArtifactError::MissingSeparator),
        Some((cipher, list)) => match parsed_markers(list) {
            None => Err(CorruptArtifactError::MalformedMarker),
            Some(markers) => decoded(cipher, markers, key),
        },
    }
}

/// Decodes an artifact with an expanded key.
pub fn to_english(message: &String, key: &String) -> (text: Result<String, CorruptArtifactError>)
    ensures
        result_view(text) == read_back(message@, key@),
{
    match split_artifact(message.as_str()) {
        Err(e) => Err(e),
        Ok((cipher, list)) => match parse_punc_symbols(list.as_str()) {
            Err(e) => Err(e),
            Ok(markers) => decode_streams(cipher.as_str(), &markers, key.as_str()),
        },
    }
}

} // verus!
