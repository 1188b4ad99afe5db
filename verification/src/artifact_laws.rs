//! Reading an artifact undoes writing it.

use vstd::prelude::*;
use crate::artifact::{
    artifact_parts, artifact_text, first_separator, first_separator_at, lemma_first_separator,
    lemma_no_separator, read_back, separator, separator_at, without_carriage_returns,
};
use crate::markers::{
    all_digits, bare, decimal, digit_char, digits_of, is_digit, is_list_decoration,
    is_whitespace, listed, number_value, parsed_markers, pending, rendered_markers, scanned,
    token_value, tokens,
};
use crate::decode::decoded;

verus! {

/// A character of a number in decimal: a digit or the minus sign.
pub open spec fn is_number_char(c: char) -> bool {
    is_digit(c) || c == '-'
}

/// A character of a marker list between its brackets.
pub open spec fn is_list_char(c: char) -> bool {
    is_number_char(c) || c == ',' || c == ' '
}

/// A text without line feed and carriage return.
pub open spec fn is_one_line(text: Seq<char>) -> bool {
    forall|i: int| 0 <= i < text.len() ==> (#[trigger] text[i]) != '\n' && text[i] != '\r'
}

/// The markers in decimal, with a single space between neighbours.
pub open spec fn spaced(markers: Seq<i32>) -> Seq<char>
    decreases markers.len(),
{
    if markers.len() == 0 {
        Seq::empty()
    } else if markers.len() == 1 {
        decimal(markers[0] as int)
    } else {
        spaced(markers.drop_last()) + seq![' '] + decimal(markers.last() as int)
    }
}

/// A token: at least one character, and no white space.
pub open spec fn is_token(text: Seq<char>) -> bool {
    text.len() > 0 && forall|i: int| 0 <= i < text.len() ==> !is_whitespace(#[trigger] text[i])
}

proof fn lemma_filter_keeps_all<A>(s: Seq<A>, pred: spec_fn(A) -> bool)
    requires
        forall|i: int| 0 <= i < s.len() ==> pred(#[trigger] s[i]),
    ensures
        s.filter(pred) == s,
    decreases s.len(),
{
    reveal(Seq::filter);
    if s.len() > 0 {
        lemma_filter_keeps_all(s.drop_last(), pred);
        assert(s.drop_last().push(s.last()) =~= s);
    }
}

/// The separator is a line feed, twenty dashes and a line feed.
pub proof fn lemma_separator_shape()
    ensures
        separator().len() == 22,
        separator()[0] == '\n',
        forall|i: int| 1 <= i <= 20 ==> separator()[i] == '-',
        separator()[21] == '\n',
{
    reveal_strlit("\n--------------------\n");
}

proof fn lemma_digits_of(n: nat)
    ensures
        digits_of(n).len() > 0,
        all_digits(digits_of(n)),
        number_value(digits_of(n)) == n,
    decreases n,
{
    let d = digits_of(n);
    if n < 10 {
        assert(d.drop_last() =~= Seq::<char>::empty());
        assert(number_value(d.drop_last()) == 0);
        assert(d.last() == digit_char(n as int));
    } else {
        lemma_digits_of(n / 10);
        assert(d.drop_last() =~= digits_of(n / 10));
        assert(d.last() == digit_char((n % 10) as int));
    }
}

/// A 32-bit integer in decimal is a token of digits and at most a minus
/// sign, and the value of that token is the integer.
pub proof fn lemma_token_value_of_decimal(value: i32)
    ensures
        is_token(decimal(value as int)),
        forall|i: int|
            0 <= i < decimal(value as int).len() ==> is_number_char(
                #[trigger] decimal(value as int)[i],
            ),
        token_value(decimal(value as int)) == Some(value),
{
    let token = decimal(value as int);
    if value < 0 {
        let n = (-(value as int)) as nat;
        lemma_digits_of(n);
        assert(token[0] == '-');
        assert(token.drop_first() =~= digits_of(n));
        assert forall|i: int| 0 <= i < token.len() implies is_number_char(#[trigger] token[i]) by {
            if i > 0 {
                assert(token[i] == digits_of(n)[i - 1]);
            }
        }
    } else {
        lemma_digits_of(value as nat);
        assert(is_digit(token[0]));
    }
}

proof fn lemma_scan_run(text: Seq<char>, i: int, start: int)
    requires
        0 <= start <= i <= text.len(),
        forall|k: int| i <= k < text.len() ==> !is_whitespace(#[trigger] text[k]),
    ensures
        scanned(text, i, start) == pending(text, start, text.len() as int),
    decreases text.len() - i,
{
    if i < text.len() {
        lemma_scan_run(text, i + 1, start);
    }
}

proof fn lemma_scan_append(head: Seq<char>, token: Seq<char>, i: int, start: int)
    requires
        is_token(token),
        0 <= start <= i <= head.len(),
    ensures
        scanned(head + seq![' '] + token, i, start) == scanned(head, i, start).push(token),
    decreases head.len() - i,
{
    let text = head + seq![' '] + token;
    if start < i {
        assert(text.subrange(start, i) =~= head.subrange(start, i));
    }
    assert(pending(text, start, i) =~~= pending(head, start, i));
    if i < head.len() {
        assert(text[i] == head[i]);
        if is_whitespace(head[i]) {
            lemma_scan_append(head, token, i + 1, i + 1);
            assert(scanned(text, i, start) =~~= scanned(head, i, start).push(token));
        } else {
            lemma_scan_append(head, token, i + 1, start);
        }
    } else {
        assert(text[i] == ' ');
        assert forall|k: int| i + 1 <= k < text.len() implies !is_whitespace(
            #[trigger] text[k],
        ) by {
            assert(text[k] == token[k - i - 1]);
        }
        lemma_scan_run(text, i + 1, i + 1);
        assert(text.subrange(i + 1, text.len() as int) =~= token);
        assert(scanned(text, i + 1, i + 1) =~~= seq![token]);
        assert(scanned(text, i, start) =~~= scanned(head, i, start).push(token));
    }
}

/// A token alone is its own and only token.
pub proof fn lemma_tokens_of_token(token: Seq<char>)
    requires
        is_token(token),
    ensures
        tokens(token) == seq![token],
{
    lemma_scan_run(token, 0, 0);
    assert(token.subrange(0, token.len() as int) =~= token);
}

/// A token after a text and a space is one more token of the whole.
pub proof fn lemma_tokens_of_appended(head: Seq<char>, token: Seq<char>)
    requires
        is_token(token),
    ensures
        tokens(head + seq![' '] + token) == tokens(head).push(token),
{
    lemma_scan_append(head, token, 0, 0);
}

proof fn lemma_tokens_of_spaced(markers: Seq<i32>)
    ensures
        tokens(spaced(markers)) == Seq::new(markers.len(), |k: int| decimal(markers[k] as int)),
    decreases markers.len(),
{
    let expected = Seq::new(markers.len(), |k: int| decimal(markers[k] as int));
    if markers.len() == 0 {
        assert(tokens(spaced(markers)) =~~= expected);
    } else if markers.len() == 1 {
        lemma_token_value_of_decimal(markers[0]);
        lemma_tokens_of_token(decimal(markers[0] as int));
        assert(tokens(spaced(markers)) =~~= expected);
    } else {
        let head = markers.drop_last();
        lemma_tokens_of_spaced(head);
        lemma_token_value_of_decimal(markers.last());
        lemma_tokens_of_appended(spaced(head), decimal(markers.last() as int));
        assert(tokens(spaced(markers)) =~~= expected);
    }
}

proof fn lemma_listed_chars(markers: Seq<i32>)
    ensures
        forall|i: int| 0 <= i < listed(markers).len() ==> is_list_char(#[trigger] listed(markers)[i]),
    decreases markers.len(),
{
    if markers.len() == 1 {
        lemma_token_value_of_decimal(markers[0]);
    } else if markers.len() >= 2 {
        let head = listed(markers.drop_last());
        let last = decimal(markers.last() as int);
        lemma_listed_chars(markers.drop_last());
        lemma_token_value_of_decimal(markers.last());
        assert forall|i: int| 0 <= i < listed(markers).len() implies is_list_char(
            #[trigger] listed(markers)[i],
        ) by {
            if i < head.len() {
                assert(listed(markers)[i] == head[i]);
            } else if i >= head.len() + 2 {
                assert(listed(markers)[i] == last[i - head.len() - 2]);
            }
        }
    }
}

proof fn lemma_bare_of_listed(markers: Seq<i32>)
    ensures
        bare(listed(markers)) == spaced(markers),
    decreases markers.len(),
{
    let pred = |c: char| !is_list_decoration(c);
    if markers.len() == 0 {
        lemma_filter_keeps_all(listed(markers), pred);
    } else if markers.len() == 1 {
        lemma_token_value_of_decimal(markers[0]);
        lemma_filter_keeps_all(decimal(markers[0] as int), pred);
    } else {
        let head = listed(markers.drop_last());
        let last = decimal(markers.last() as int);
        lemma_bare_of_listed(markers.drop_last());
        lemma_token_value_of_decimal(markers.last());
        lemma_filter_keeps_all(last, pred);
        Seq::filter_distributes_over_add(head + seq![',', ' '], last, pred);
        Seq::filter_distributes_over_add(head, seq![',', ' '], pred);
        let empty = Seq::<char>::empty();
        empty.lemma_filter_push(',', pred);
        empty.push(',').lemma_filter_push(' ', pred);
        lemma_filter_keeps_all(empty, pred);
        assert(empty.push(',').push(' ') =~= seq![',', ' ']);
        assert(empty.push(' ') =~= seq![' ']);
    }
}

/// Without its decoration, a rendered marker list is its markers with a
/// space between neighbours, with or without a line feed after it.
proof fn lemma_bare_of_rendered(markers: Seq<i32>)
    ensures
        bare(rendered_markers(markers)) == spaced(markers),
        bare(rendered_markers(markers) + seq!['\n']) == spaced(markers),
{
    let pred = |c: char| !is_list_decoration(c);
    let empty = Seq::<char>::empty();
    lemma_bare_of_listed(markers);
    lemma_filter_keeps_all(empty, pred);
    empty.lemma_filter_push('[', pred);
    empty.lemma_filter_push(']', pred);
    empty.lemma_filter_push('\n', pred);
    assert(empty.push('[') =~= seq!['[']);
    assert(empty.push(']') =~= seq![']']);
    assert(empty.push('\n') =~= seq!['\n']);
    Seq::filter_distributes_over_add(seq!['['], listed(markers), pred);
    Seq::filter_distributes_over_add(seq!['['] + listed(markers), seq![']'], pred);
    Seq::filter_distributes_over_add(rendered_markers(markers), seq!['\n'], pred);
    assert(bare(rendered_markers(markers)) =~= spaced(markers));
    assert(bare(rendered_markers(markers) + seq!['\n']) =~= spaced(markers));
}

/// Parsing a rendered marker list gives the markers back, with or without a
/// line feed after the list.
pub proof fn lemma_parsing_undoes_rendering(markers: Seq<i32>)
    ensures
        parsed_markers(rendered_markers(markers)) == Some(markers),
        parsed_markers(rendered_markers(markers) + seq!['\n']) == Some(markers),
{
    lemma_bare_of_rendered(markers);
    lemma_tokens_of_spaced(markers);
    let found = tokens(spaced(markers));
    assert forall|k: int| 0 <= k < found.len() implies (#[trigger] token_value(found[k])) == Some(
        markers[k],
    ) by {
        lemma_token_value_of_decimal(markers[k]);
    }
    assert(parsed_markers(rendered_markers(markers))->Some_0 =~= markers);
    assert(parsed_markers(rendered_markers(markers) + seq!['\n'])->Some_0 =~= markers);
}

/// A rendered marker list is one line.
proof fn lemma_rendered_is_one_line(markers: Seq<i32>)
    ensures
        is_one_line(rendered_markers(markers)),
{
    lemma_listed_chars(markers);
    let list = rendered_markers(markers);
    assert forall|i: int| 0 <= i < list.len() implies (#[trigger] list[i]) != '\n' && list[i]
        != '\r' by {
        if 0 < i < list.len() - 1 {
            assert(list[i] == listed(markers)[i - 1]);
            assert(is_list_char(listed(markers)[i - 1]));
        }
    }
}

/// The first separator of a text that begins with one line and a separator
/// stands right after that line.
proof fn lemma_separator_after_one_line(head: Seq<char>, rest: Seq<char>)
    requires
        is_one_line(head),
    ensures
        first_separator(head + separator() + rest) == Some(head.len() as int),
{
    lemma_separator_shape();
    let text = head + separator() + rest;
    let at = head.len() as int;
    assert(text.subrange(at, at + 22) =~= separator());
    assert forall|j: int| j < at implies !separator_at(text, j) by {
        if 0 <= j && j + 22 <= text.len() {
            assert(text.subrange(j, j + 22)[0] == head[j]);
        }
    }
    assert(first_separator_at(text, at));
    lemma_first_separator(text, at);
}

/// One line, with or without a line feed after it, holds no separator.
proof fn lemma_no_separator_in_one_line(line: Seq<char>)
    requires
        is_one_line(line),
    ensures
        first_separator(line) is None,
        first_separator(line + seq!['\n']) is None,
{
    lemma_separator_shape();
    let text = line + seq!['\n'];
    assert forall|j: int| !separator_at(line, j) by {
        if 0 <= j && j + 22 <= line.len() {
            assert(line.subrange(j, j + 22)[0] == line[j]);
        }
    }
    lemma_no_separator(line);
    assert forall|j: int| !separator_at(text, j) by {
        if 0 <= j && j + 22 <= text.len() {
            assert(text.subrange(j, j + 22)[0] == line[j]);
        }
    }
    lemma_no_separator(text);
}

/// Two lines with a separator between them and a line feed after them hold
/// no carriage return.
proof fn lemma_joined_lines_keep_their_characters(head: Seq<char>, line: Seq<char>)
    requires
        is_one_line(head),
        is_one_line(line),
    ensures
        without_carriage_returns(head + separator() + line + seq!['\n']) == head + separator()
            + line + seq!['\n'],
{
    lemma_separator_shape();
    let text = head + separator() + line + seq!['\n'];
    let pred = |c: char| c != '\r';
    assert forall|i: int| 0 <= i < text.len() implies pred(#[trigger] text[i]) by {
        if i < head.len() {
            assert(text[i] == head[i]);
        } else if i < head.len() + 22 {
            assert(text[i] == separator()[i - head.len()]);
        } else if i < text.len() - 1 {
            assert(text[i] == line[i - head.len() - 22]);
        }
    }
    lemma_filter_keeps_all(text, pred);
}

proof fn lemma_separator_of_joined_lines(head: Seq<char>, line: Seq<char>)
    requires
        is_one_line(head),
    ensures
        first_separator(head + separator() + line + seq!['\n']) == Some(head.len() as int),
{
    assert(head + separator() + line + seq!['\n'] =~= head + separator() + (line + seq!['\n']));
    lemma_separator_after_one_line(head, line + seq!['\n']);
}

proof fn lemma_cut_of_joined_lines(head: Seq<char>, middle: Seq<char>, line: Seq<char>)
    ensures
        (head + middle + line + seq!['\n']).take(head.len() as int) == head,
        (head + middle + line + seq!['\n']).skip((head.len() + middle.len()) as int) == line + seq!['\n'],
{
    let text = head + middle + line + seq!['\n'];
    assert(text.take(head.len() as int) =~= head);
    assert(text.skip((head.len() + middle.len()) as int) =~= line + seq!['\n']);
}

/// Two lines with a separator between them and a line feed after them fall
/// into the first line and the second with its line feed.
proof fn lemma_parts_of_joined_lines(head: Seq<char>, line: Seq<char>)
    requires
        is_one_line(head),
        is_one_line(line),
    ensures
        artifact_parts(head + separator() + line + seq!['\n']) == Some(
            (head, line + seq!['\n']),
        ),
{
    lemma_joined_lines_keep_their_characters(head, line);
    lemma_separator_of_joined_lines(head, line);
    lemma_cut_of_joined_lines(head, separator(), line);
    lemma_no_separator_in_one_line(line);
}

/// The artifact of a one-line cipher stream falls into that stream and the
/// rendered markers with their line feed.
pub proof fn lemma_parts_of_artifact(cipher: Seq<char>, markers: Seq<i32>)
    requires
        is_one_line(cipher),
    ensures
        artifact_parts(artifact_text(cipher, markers)) == Some(
            (cipher, rendered_markers(markers) + seq!['\n']),
        ),
{
    lemma_rendered_is_one_line(markers);
    lemma_parts_of_joined_lines(cipher, rendered_markers(markers));
}

/// Reading the artifact of two streams is decoding the two streams, if the
/// cipher stream is one line.
pub proof fn lemma_reading_undoes_writing(cipher: Seq<char>, markers: Seq<i32>, key: Seq<char>)
    requires
        is_one_line(cipher),
    ensures
        read_back(artifact_text(cipher, markers), key) == decoded(cipher, markers, key),
{
    lemma_parts_of_artifact(cipher, markers);
    lemma_parsing_undoes_rendering(markers);
}

} // verus!
