use vigenere::artifact::SEPARATOR;
use vigenere::{
    parse_punc_symbols, render_markers, split_artifact, to_english, write_artifact,
    CorruptArtifactError,
};

#[test]
fn separator_is_twenty_dashes_between_line_feeds() {
    assert_eq!(SEPARATOR, format!("\n{}\n", "-".repeat(20)));
}

#[test]
fn markers_are_rendered_like_a_debug_list() {
    for markers in [
        vec![],
        vec![0],
        vec![2, 0, 14],
        vec![-1, 47, 100, -2147483648, 2147483647, 10, 9, 1000000],
    ] {
        assert_eq!(render_markers(&markers), format!("{:?}", markers));
    }
}

#[test]
fn artifact_has_the_documented_layout() {
    assert_eq!(
        write_artifact("LXF", &vec![0, 1, 2, 1]),
        "LXF\n--------------------\n[0, 1, 2, 1]\n"
    );
    assert_eq!(write_artifact("", &vec![]), "\n--------------------\n[]\n");
}

#[test]
fn marker_list_is_parsed() {
    assert_eq!(parse_punc_symbols("[2, 0, 14]\n"), Ok(vec![2, 0, 14]));
    assert_eq!(parse_punc_symbols("[2, 0, 14]"), Ok(vec![2, 0, 14]));
    assert_eq!(parse_punc_symbols("[7]"), Ok(vec![7]));
}

#[test]
fn empty_marker_list_is_parsed() {
    assert_eq!(parse_punc_symbols("[]"), Ok(vec![]));
    assert_eq!(parse_punc_symbols("[]\n"), Ok(vec![]));
    assert_eq!(parse_punc_symbols(""), Ok(vec![]));
    assert_eq!(parse_punc_symbols("  \t "), Ok(vec![]));
}

#[test]
fn signs_and_limits_are_parsed() {
    assert_eq!(parse_punc_symbols("[-3, +4, -0, 0005]"), Ok(vec![-3, 4, 0, 5]));
    assert_eq!(
        parse_punc_symbols("[2147483647, -2147483648]"),
        Ok(vec![2147483647, -2147483648])
    );
    assert_eq!(parse_punc_symbols("[00000000000000000000012]"), Ok(vec![12]));
}

#[test]
fn commas_only_decorate() {
    assert_eq!(parse_punc_symbols("[1,2]"), Ok(vec![12]));
    assert_eq!(parse_punc_symbols("1 2 3"), Ok(vec![1, 2, 3]));
    assert_eq!(parse_punc_symbols("[1,\n 2]\r\n"), Ok(vec![1, 2]));
    assert_eq!(parse_punc_symbols("[[1], [2]]"), Ok(vec![1, 2]));
}

#[test]
fn any_white_space_separates() {
    assert_eq!(parse_punc_symbols("1\t2\u{b}3\u{c}4\u{a0}5\u{2003}6\u{3000}7\u{85}8"), Ok(vec![1, 2, 3, 4, 5, 6, 7, 8]));
    assert_eq!(parse_punc_symbols("  1   2  "), Ok(vec![1, 2]));
}

#[test]
fn malformed_markers_are_refused() {
    for list in [
        "[1, x]", "[a]", "[-]", "[+]", "[1.5]", "[2147483648]", "[-2147483649]",
        "[99999999999999999999]", "[1-2]", "[--1]", "[+-1]", "[1, 2, 3 4x]", "[٣]", "[0x10]",
        "[1_000]",
    ] {
        assert_eq!(parse_punc_symbols(list), Err(CorruptArtifactError::MalformedMarker), "{}", list);
    }
}

#[test]
fn parsing_undoes_rendering() {
    for markers in [
        vec![],
        vec![0],
        vec![0, 1, 1, 2, 47, 46, 45, 3],
        vec![-1, 100, -2147483648, 2147483647, 10, 9, 1000000, 0],
    ] {
        assert_eq!(parse_punc_symbols(&render_markers(&markers)), Ok(markers.clone()));
        let mut with_line_feed = render_markers(&markers);
        with_line_feed.push('\n');
        assert_eq!(parse_punc_symbols(&with_line_feed), Ok(markers));
    }
}

#[test]
fn artifact_is_split_at_the_separator() {
    assert_eq!(
        split_artifact("LXF\n--------------------\n[0, 1]\n"),
        Ok((String::from("LXF"), String::from("[0, 1]\n")))
    );
    assert_eq!(
        split_artifact("\n--------------------\n"),
        Ok((String::new(), String::new()))
    );
}

#[test]
fn carriage_returns_do_not_count() {
    assert_eq!(
        split_artifact("LX\rF\r\n--------------------\r\n[0, 1]\r\n"),
        Ok((String::from("LXF"), String::from("[0, 1]\n")))
    );
    assert_eq!(
        split_artifact("A\n----------\r----------\nB"),
        Ok((String::from("A"), String::from("B")))
    );
}

#[test]
fn only_the_first_two_parts_count() {
    assert_eq!(
        split_artifact("A\n--------------------\nB\n--------------------\nC"),
        Ok((String::from("A"), String::from("B")))
    );
    assert_eq!(
        split_artifact("A\n--------------------\n--------------------\nB"),
        Ok((String::from("A"), String::from("--------------------\nB")))
    );
}

#[test]
fn artifact_without_separator_is_refused() {
    for artifact in [
        "",
        "LXF",
        "LXF\n[0, 1]\n",
        "LXF\n-------------------\n[0, 1]\n",
        "LXF--------------------\n[0, 1]\n",
        "LXF\n--------------------",
    ] {
        assert_eq!(split_artifact(artifact), Err(CorruptArtifactError::MissingSeparator));
        assert_eq!(
            to_english(&String::from(artifact), &String::from("KEY")),
            Err(CorruptArtifactError::MissingSeparator)
        );
    }
}

#[test]
fn to_english_reads_an_artifact() {
    let artifact = String::from(
        "LXFOPVEFRNHR\n--------------------\n[0, 1, 1, 1, 1, 1, 2, 1, 1, 2, 1, 1, 1, 1, 3]\n",
    );
    assert_eq!(
        to_english(&artifact, &String::from("LEMONLEMONLEMON")),
        Ok(String::from("Attack at dawn!"))
    );
}

#[test]
fn to_english_with_truncated_markers_is_refused() {
    let artifact = String::from("LXFOPVEFRNHR\n--------------------\n[0, 1, 1, 1, 1, 1, 2, 1]\n");
    assert_eq!(
        to_english(&artifact, &String::from("LEMONLEMONLE")),
        Err(CorruptArtifactError::MarkersExhausted)
    );
}

#[test]
fn to_english_with_a_malformed_marker_is_refused() {
    let artifact = String::from("LXF\n--------------------\n[0, one, 1]\n");
    assert_eq!(
        to_english(&artifact, &String::from("LEM")),
        Err(CorruptArtifactError::MalformedMarker)
    );
}

#[test]
fn corrupt_artifact_errors_have_messages() {
    assert!(CorruptArtifactError::MissingSeparator.message().starts_with("corrupt artifact"));
    assert!(CorruptArtifactError::MalformedMarker.message().starts_with("corrupt artifact"));
    assert!(CorruptArtifactError::MarkersExhausted.message().starts_with("corrupt artifact"));
}

#[test]
fn white_space_is_what_unicode_calls_so() {
    let candidates = (0u32..0x3100).chain([0xfeff, 0x1_0000, 0x10_ffff]);
    for code in candidates {
        let c = match char::from_u32(code) {
            Some(c) => c,
            None => unreachable!(),
        };
        let parsed = parse_punc_symbols(&format!("1{}2", c));
        if c.is_whitespace() && c != '\n' && c != '\r' {
            assert_eq!(parsed, Ok(vec![1, 2]), "{:?}", c);
        } else if [',', '[', ']', '\n', '\r'].contains(&c) {
            assert_eq!(parsed, Ok(vec![12]), "{:?}", c);
        } else if c.is_ascii_digit() {
            assert_eq!(parsed, Ok(vec![format!("1{}2", c).parse().unwrap()]), "{:?}", c);
        } else {
            assert_eq!(parsed, Err(CorruptArtifactError::MalformedMarker), "{:?}", c);
        }
    }
}

#[test]
fn tokens_are_read_like_the_standard_integer_parser() {
    let tokens = [
        "0", "7", "-7", "+7", "007", "-007", "+0", "-0", "2147483647", "2147483648",
        "-2147483648", "-2147483649", "4294967296", "1a", "a1", "-", "+", "--1", "++1", "1-",
        "1+", "12345678901234567890", "0000000000000000000000000000000000001", "١٢٣",
    ];
    for token in tokens {
        let expected: Result<i32, _> = token.parse::<i32>();
        match expected {
            Ok(value) => assert_eq!(parse_punc_symbols(token), Ok(vec![value]), "{}", token),
            Err(_) => assert_eq!(
                parse_punc_symbols(token),
                Err(CorruptArtifactError::MalformedMarker),
                "{}",
                token
            ),
        }
    }
}
