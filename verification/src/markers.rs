//! The marker list: the markers of a message as a list of integers in square
//! brackets, with a comma and a space between neighbours.

use vstd::prelude::*;
use crate::error::CorruptArtifactError;
use crate::text::to_chars;

verus! {

// ----- writing -----

/// The character of a decimal digit.
pub open spec fn digit_char(digit: int) -> char {
    ('0' as int + digit) as char
}

/// The decimal digits of a natural number, without leading zeros.
pub open spec fn digits_of(n: nat) -> Seq<char>
    decreases n,
{
    if n < 10 {
        seq![digit_char(n as int)]
    } else {
        digits_of(n / 10).push(digit_char((n % 10) as int))
    }
}

/// An integer in decimal, with a minus sign if it is negative.
pub open spec fn decimal(n: int) -> Seq<char> {
    if n < 0 {
        seq!['-'] + digits_of((-n) as nat)
    } else {
        digits_of(n as nat)
    }
}

/// The markers in decimal, with a comma and a space between neighbours.
pub open spec fn listed(markers: Seq<i32>) -> Seq<char>
    decreases markers.len(),
{
    if markers.len() == 0 {
        Seq::empty()
    } else if markers.len() == 1 {
        decimal(markers[0] as int)
    } else {
        listed(markers.drop_last()) + seq![',', ' '] + decimal(markers.last() as int)
    }
}

/// The marker list as it stands in an artifact.
pub open spec fn rendered_markers(markers: Seq<i32>) -> Seq<char> {
    seq!['['] + listed(markers) + seq![']']
}

fn push_digits(out: &mut String, n: u32)
    ensures
        final(out)@ == old(out)@ + digits_of(n as nat),
    decreases n,
{
    if n >= 10 {
        push_digits(out, n / 10);
    }
    let digit = (n % 10) as u8;
    out.push(('0' as u8 + digit) as char);
    assert(out@ =~= old(out)@ + digits_of(n as nat));
}

fn push_decimal(out: &mut String, value: i32)
    ensures
        final(out)@ == old(out)@ + decimal(value as int),
{
    if value < 0 {
        out.push('-');
        let magnitude = (-(value as i64)) as u32;
        push_digits(out, magnitude);
        assert(out@ =~= old(out)@ + decimal(value as int));
    } else {
        push_digits(out, value as u32);
    }
}

/// Writes the markers as a list in square brackets.
pub fn render_markers(markers: &Vec<i32>) -> (list: String)
    ensures
        list@ == rendered_markers(markers@),
{
    let mut list = String::new();
    list.push('[');
    let mut i: usize = 0;
    assert(markers@.take(0) =~= Seq::<i32>::empty());
    while i < markers.len()
        invariant
            i <= markers.len(),
            list@ == seq!['['] + listed(markers@.take(i as int)),
        decreases markers.len() - i,
    {
        let ghost before = list@;
        let ghost next = markers@.take(i + 1);
        proof {
            assert(next.drop_last() =~= markers@.take(i as int));
            assert(next.last() == markers@[i as int]);
        }
        if i > 0 {
            list.push(',');
            list.push(' ');
        }
        push_decimal(&mut list, markers[i]);
        proof {
            if i > 0 {
                assert(list@ =~= before + seq![',', ' '] + decimal(markers@[i as int] as int));
            }
            assert(list@ =~= seq!['['] + listed(next));
        }
        i += 1;
    }
    assert(markers@.take(markers.len() as int) == markers@);
    list.push(']');
    assert(list@ =~= rendered_markers(markers@));
    list
}

// ----- reading -----

/// The characters that only decorate a marker list: comma, square brackets,
/// line feed and carriage return.
pub open spec fn is_list_decoration(c: char) -> bool {
    c == ',' || c == '[' || c == ']' || c == '\n' || c == '\r'
}

/// White space: the characters with the Unicode property of that name.
pub open spec fn is_whitespace(c: char) -> bool {
    c == ' ' || ('\u{9}' <= c <= '\u{d}') || c == '\u{85}' || c == '\u{a0}' || c == '\u{1680}'
        || ('\u{2000}' <= c <= '\u{200a}') || c == '\u{2028}' || c == '\u{2029}' || c
        == '\u{202f}' || c == '\u{205f}' || c == '\u{3000}'
}

/// Whether `c` is one of 0-9.
pub open spec fn is_digit(c: char) -> bool {
    '0' <= c <= '9'
}

/// The value of a decimal digit; 0 for any other character.
pub open spec fn digit_value(c: char) -> nat {
    if is_digit(c) {
        (c as int - '0' as int) as nat
    } else {
        0
    }
}

/// The number that a row of decimal digits writes.
pub open spec fn number_value(digits: Seq<char>) -> nat
    decreases digits.len(),
{
    if digits.len() == 0 {
        0
    } else {
        number_value(digits.drop_last()) * 10 + digit_value(digits.last())
    }
}

/// Whether every character of `text` is a decimal digit.
pub open spec fn all_digits(text: Seq<char>) -> bool {
    forall|i: int| 0 <= i < text.len() ==> is_digit(#[trigger] text[i])
}

/// The integer that a token writes: an optional sign, then one decimal digit
/// or more, with a value that fits 32 bits.  Nothing for any other token.
pub open spec fn token_value(token: Seq<char>) -> Option<i32> {
    let negative = token.len() > 0 && token[0] == '-';
    let signed = token.len() > 0 && (token[0] == '-' || token[0] == '+');
    let digits = if signed {
        token.drop_first()
    } else {
        token
    };
    let value = if negative {
        -(number_value(digits) as int)
    } else {
        number_value(digits) as int
    };
    if digits.len() > 0 && all_digits(digits) && i32::MIN <= value <= i32::MAX {
        Some(value as i32)
    } else {
        None
    }
}

/// A marker list without its decoration.
pub open spec fn bare(list: Seq<char>) -> Seq<char> {
    list.filter(|c: char| !is_list_decoration(c))
}

/// The token that is being read at index `i`, if one has begun at `start`.
pub open spec fn pending(text: Seq<char>, start: int, i: int) -> Seq<Seq<char>> {
    if start < i {
        seq![text.subrange(start, i)]
    } else {
        Seq::empty()
    }
}

/// The tokens of `text` that end at index `i` or later, where `start` is the
/// index after the last white space before `i`.
pub open spec fn scanned(text: Seq<char>, i: int, start: int) -> Seq<Seq<char>>
    decreases text.len() - i,
{
    if i >= text.len() {
        pending(text, start, text.len() as int)
    } else if is_whitespace(text[i]) {
        pending(text, start, i) + scanned(text, i + 1, i + 1)
    } else {
        scanned(text, i + 1, start)
    }
}

/// The tokens of a text: its longest runs of characters without white space.
pub open spec fn tokens(text: Seq<char>) -> Seq<Seq<char>> {
    scanned(text, 0, 0)
}

/// The markers that a list writes: the values of the tokens of the bare
/// list, if every token writes an integer.
pub open spec fn parsed_markers(list: Seq<char>) -> Option<Seq<i32>> {
    let found = tokens(bare(list));
    if forall|k: int| 0 <= k < found.len() ==> (#[trigger] token_value(found[k])) is Some {
        Some(Seq::new(found.len(), |k: int| token_value(found[k])->Some_0))
    } else {
        None
    }
}

/// A row of digits writes at least the number that any of its beginnings
/// writes.
proof fn lemma_number_value_grows(digits: Seq<char>, n: int)
    requires
        0 <= n <= digits.len(),
    ensures
        number_value(digits.take(n)) <= number_value(digits),
    decreases digits.len(),
{
    if n < digits.len() {
        assert(digits.drop_last().take(n) =~= digits.take(n));
        lemma_number_value_grows(digits.drop_last(), n);
    } else {
        assert(digits.take(n) =~= digits);
    }
}

fn is_whitespace_char(c: char) -> (white: bool)
    ensures
        white == is_whitespace(c),
{
    c == ' ' || ('\u{9}' <= c && c <= '\u{d}') || c == '\u{85}' || c == '\u{a0}' || c
        == '\u{1680}' || ('\u{2000}' <= c && c <= '\u{200a}') || c == '\u{2028}' || c
        == '\u{2029}' || c == '\u{202f}' || c == '\u{205f}' || c == '\u{3000}'
}

fn strip_decoration(chars: &Vec<char>) -> (kept: Vec<char>)
    ensures
        kept@ == bare(chars@),
{
    let mut kept: Vec<char> = Vec::new();
    let mut i: usize = 0;
    while i < chars.len()
        invariant
            i <= chars.len(),
            kept@ == bare(chars@.take(i as int)),
        decreases chars.len() - i,
    {
        let c = chars[i];
        proof {
            assert(chars@.take(i + 1) == chars@.take(i as int).push(c));
            chars@.take(i as int).lemma_filter_push(c, |c: char| !is_list_decoration(c));
        }
        if !(c == ',' || c == '[' || c == ']' || c == '\n' || c == '\r') {
            kept.push(c);
        }
        i += 1;
    }
    assert(chars@.take(chars.len() as int) == chars@);
    kept
}

fn parse_token(text: &Vec<char>, from: usize, to: usize) -> (value: Option<i32>)
    requires
        from < to <= text.len(),
    ensures
        value == token_value(text@.subrange(from as int, to as int)),
{
    let ghost token = text@.subrange(from as int, to as int);
    let negative = text[from] == '-';
    let signed = negative || text[from] == '+';
    let first = if signed {
        from + 1
    } else {
        from
    };
    let ghost digits = text@.subrange(first as int, to as int);
    proof {
        assert(token[0] == text@[from as int]);
        if signed {
            assert(token.drop_first() =~= digits);
        } else {
            assert(token =~= digits);
        }
    }
    if first == to {
        return None;
    }
    let mut magnitude: i64 = 0;
    let mut i: usize = first;
    assert(digits.take(0) =~= Seq::<char>::empty());
    while i < to
        invariant
            first <= i <= to <= text.len(),
            token == text@.subrange(from as int, to as int),
            negative == (token[0] == '-'),
            signed == (token[0] == '-' || token[0] == '+'),
            signed ==> token.drop_first() == digits,
            !signed ==> token == digits,
            digits == text@.subrange(first as int, to as int),
            magnitude == number_value(digits.take(i - first)),
            0 <= magnitude <= 2147483648,
            forall|j: int| 0 <= j < i - first ==> is_digit(#[trigger] digits[j]),
        decreases to - i,
    {
        let c = text[i];
        assert(digits[i - first] == c);
        if !('0' <= c && c <= '9') {
            return None;
        }
        proof {
            assert(digits.take(i + 1 - first).drop_last() =~= digits.take(i - first));
            assert(digits.take(i + 1 - first).last() == c);
        }
        magnitude = magnitude * 10 + (c as u8 - '0' as u8) as i64;
        if magnitude > 2147483648 {
            proof {
                lemma_number_value_grows(digits, i + 1 - first);
            }
            return None;
        }
        i += 1;
    }
    assert(digits.take(to - first) =~= digits);
    if negative {
        Some((-magnitude) as i32)
    } else if magnitude > 2147483647 {
        None
    } else {
        Some(magnitude as i32)
    }
}

/// Reads the markers of a marker list.
///
/// Commas, square brackets, line feeds and carriage returns are dropped.
/// What is left is cut at white space, and each piece has to write a 32-bit
/// integer in decimal.
pub fn parse_punc_symbols(symbols: &str) -> (markers: Result<Vec<i32>, CorruptArtifactError>)
    ensures
        match markers {
            Ok(values) => parsed_markers(symbols@) == Some(values@),
            Err(e) => parsed_markers(symbols@) is None && e
                == CorruptArtifactError::MalformedMarker,
        },
{
    let raw = to_chars(symbols);
    let text = strip_decoration(&raw);
    let mut values: Vec<i32> = Vec::new();
    let ghost mut done: Seq<Seq<char>> = Seq::empty();
    let mut start: usize = 0;
    let mut i: usize = 0;
    while i < text.len()
        invariant
            text@ == bare(symbols@),
            start <= i <= text.len(),
            tokens(text@) == done + scanned(text@, i as int, start as int),
            values.len() == done.len(),
            forall|k: int| 0 <= k < done.len() ==> token_value(#[trigger] done[k]) == Some(values@[k]),
        decreases text.len() - i,
    {
        if is_whitespace_char(text[i]) {
            if start < i {
                let ghost token = text@.subrange(start as int, i as int);
                proof {
                    assert(tokens(text@) =~= done.push(token) + scanned(text@, i + 1, i + 1));
                    assert(tokens(text@)[done.len() as int] == token);
                }
                match parse_token(&text, start, i) {
                    Some(value) => {
                        values.push(value);
                    },
                    None => {
                        return Err(CorruptArtifactError::MalformedMarker);
                    },
                }
                proof {
                    done = done.push(token);
                }
            }
            start = i + 1;
        }
        i += 1;
    }
    if start < text.len() {
        let ghost token = text@.subrange(start as int, text.len() as int);
        proof {
            assert(tokens(text@) =~= done.push(token));
            assert(tokens(text@)[done.len() as int] == token);
        }
        match parse_token(&text, start, text.len()) {
            Some(value) => {
                values.push(value);
            },
            None => {
                return Err(CorruptArtifactError::MalformedMarker);
            },
        }
        proof {
            done = done.push(token);
        }
    }
    proof {
        assert(tokens(text@) =~= done);
        assert(parsed_markers(symbols@)->Some_0 =~= values@);
    }
    Ok(values)
}

} // verus!
