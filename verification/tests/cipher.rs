use vigenere::{
    decode, encode, remove_punctuation, seal, translate, ArgumentError, CipherError, Config,
    CorruptArtifactError, KeyError,
};

fn words(list: &[&str]) -> Vec<String> {
    list.iter().map(|w| w.to_string()).collect()
}

#[test]
fn attack_at_dawn_artifact() {
    let artifact = encode(&String::from("Attack at dawn!"), String::from("LEMON")).unwrap();
    assert_eq!(
        artifact,
        "LXFOPVEFRNHR\n--------------------\n[0, 1, 1, 1, 1, 1, 2, 1, 1, 2, 1, 1, 1, 1, 3]\n"
    );
}

#[test]
fn attack_at_dawn_comes_back() {
    let artifact = encode(&String::from("Attack at dawn!"), String::from("LEMON")).unwrap();
    assert_eq!(decode(&artifact, String::from("LEMON")), Ok(String::from("Attack at dawn!")));
}

#[test]
fn punctuation_only_message_is_encoded_with_an_empty_key_stream() {
    let artifact = encode(&String::from(". , ;"), String::from("LEMON")).unwrap();
    assert_eq!(artifact, "\n--------------------\n[16, 2, 14, 2, 19]\n");
    assert_eq!(decode(&artifact, String::from("LEMON")), Ok(String::from(". , ;")));
}

#[test]
fn punctuation_that_counts_as_content_is_covered_by_the_key() {
    let artifact = encode(&String::from("!?"), String::from("AB")).unwrap();
    assert_eq!(artifact, "\n--------------------\n[3, 23]\n");
    assert_eq!(encode(&String::from("!?"), String::from("LEMON")), Err(KeyError::TooLong));
}

#[test]
fn messages_come_back_exactly() {
    let messages = [
        "a",
        "Z",
        "Hello, World!",
        "The quick (brown) fox: jumps_over \"the\" lazy dog?",
        "line one\r\nline two\n\nline four\r",
        "0123456789 ~`{}|[]\\^@<=>;+*&%$#!/-.,'",
        "  leading and trailing  ",
        "MiXeD cAsE aNd 42 numbers",
    ];
    for message in messages {
        let content = remove_punctuation(&String::from(message)).len();
        for key in ["a", "K", "key", "LEMON", "a key with blanks", "0123456789"] {
            match encode(&String::from(message), String::from(key)) {
                Ok(artifact) => {
                    assert!(key.len() <= content);
                    assert_eq!(decode(&artifact, String::from(key)), Ok(String::from(message)));
                },
                Err(error) => {
                    assert!(key.len() > content);
                    assert_eq!(error, KeyError::TooLong);
                },
            }
        }
    }
}

#[test]
fn decode_with_truncated_marker_list_is_corrupt() {
    let artifact = String::from("LXFOPVEFRNHR\n--------------------\n[0, 1, 1, 1, 1, 1, 2, 1]\n");
    let error = decode(&artifact, String::from("LEMON")).unwrap_err();
    assert_eq!(error, CipherError::CorruptArtifact(CorruptArtifactError::MarkersExhausted));
    assert!(error.is_corrupt_artifact());
    assert_eq!(error.message(), CorruptArtifactError::MarkersExhausted.message());
}

#[test]
fn decode_without_separator_is_corrupt() {
    assert_eq!(
        decode(&String::from("LXFOPVEFRNHR [0, 1]"), String::from("LEMON")),
        Err(CipherError::CorruptArtifact(CorruptArtifactError::MissingSeparator))
    );
}

#[test]
fn decode_with_malformed_marker_is_corrupt() {
    assert_eq!(
        decode(&String::from("LXF\n--------------------\n[0, 1, 1e3]\n"), String::from("LEM")),
        Err(CipherError::CorruptArtifact(CorruptArtifactError::MalformedMarker))
    );
}

#[test]
fn decode_expands_the_key_against_the_cipher_letters() {
    let artifact = String::from("LXF\n--------------------\n[0, 1, 1]\n");
    assert_eq!(decode(&artifact, String::from("LEM")), Ok(String::from("Att")));
    assert_eq!(decode(&artifact, String::from("L")), Ok(String::from("Amu")));
    assert_eq!(decode(&artifact, String::from("LE")), Ok(String::from("Atu")));
}

#[test]
fn decode_uses_the_start_of_a_longer_key() {
    let artifact = String::from("LXF\n--------------------\n[0, 1, 1]\n");
    assert_eq!(decode(&artifact, String::from("LEMON")), Ok(String::from("Att")));
    let artifact = encode(&String::from("Hi!!!"), String::from("LEMON")).unwrap();
    assert_eq!(artifact, "SM\n--------------------\n[0, 1, 3, 3, 3]\n");
    assert_eq!(decode(&artifact, String::from("LEMON")), Ok(String::from("Hi!!!")));
}

#[test]
fn decode_refuses_an_empty_key_when_there_are_cipher_letters() {
    let artifact = String::from("LXF\n--------------------\n[0, 1, 1]\n");
    let error = decode(&artifact, String::new()).unwrap_err();
    assert_eq!(error, CipherError::Key(KeyError::Empty));
    assert!(!error.is_corrupt_artifact());
    let artifact = String::from("\n--------------------\n[3, 3]\n");
    assert_eq!(decode(&artifact, String::new()), Ok(String::from("!!")));
}

#[test]
fn encode_refuses_unusable_keys() {
    assert_eq!(encode(&String::from("Hi"), String::from("LEMON")), Err(KeyError::TooLong));
    assert_eq!(encode(&String::from("Hi"), String::new()), Err(KeyError::Empty));
}

#[test]
fn encode_transliterates_the_message() {
    assert_eq!(
        encode(&String::from("Æneid"), String::from("A")),
        Ok(String::from("AENEID\n--------------------\n[0, 0, 1, 1, 1, 1]\n"))
    );
    assert_eq!(
        seal("Æ", String::from("A")),
        Ok(String::from("\n--------------------\n[47]\n"))
    );
}

#[test]
fn config_takes_three_arguments() {
    let config = Config::new(words(&["prog", "in.txt", "e", "LEMON"])).unwrap();
    assert_eq!(config.input_file, "in.txt");
    assert_eq!(config.direction, "e");
    assert_eq!(config.key, "LEMON");
    let config = Config::new(words(&["prog", "in.txt", "d", "LEMON", "more", "words"])).unwrap();
    assert_eq!(config.input_file, "in.txt");
    assert_eq!(config.direction, "d");
    assert_eq!(config.key, "LEMON");
}

#[test]
fn config_reports_the_first_missing_argument() {
    assert_eq!(Config::new(words(&[])).unwrap_err(), ArgumentError::MissingInputFile);
    assert_eq!(Config::new(words(&["prog"])).unwrap_err(), ArgumentError::MissingInputFile);
    assert_eq!(Config::new(words(&["prog", "in.txt"])).unwrap_err(), ArgumentError::MissingDirection);
    assert_eq!(Config::new(words(&["prog", "in.txt", "e"])).unwrap_err(), ArgumentError::MissingKey);
}

#[test]
fn argument_errors_carry_the_usage() {
    assert_eq!(
        ArgumentError::MissingInputFile.message(),
        "No input file given- Usage: cargo run <input file> <e/d> <key>"
    );
    assert_eq!(
        ArgumentError::MissingDirection.message(),
        "Not enough information- Usage: cargo run <input file> <e/d> <key>"
    );
    assert_eq!(
        ArgumentError::MissingKey.message(),
        "Not enough information- Usage: cargo run <input file> <e/d> <key>"
    );
}

#[test]
fn config_can_be_cloned() {
    let config = Config::new(words(&["prog", "in.txt", "e", "LEMON"])).unwrap();
    let copy = config.clone();
    assert_eq!(copy.input_file, config.input_file);
    assert_eq!(copy.direction, config.direction);
    assert_eq!(copy.key, config.key);
}

#[test]
fn only_the_letter_e_asks_for_encoding() {
    for (direction, encode) in [("e", true), ("d", false), ("E", false), ("", false), ("ee", false), ("x", false)] {
        let config = Config::new(words(&["prog", "in.txt", direction, "K"])).unwrap();
        assert_eq!(config.is_encode(), encode);
    }
}

#[test]
fn translate_follows_the_direction() {
    let encode_run = Config::new(words(&["prog", "in.txt", "e", "LEMON"])).unwrap();
    let artifact = translate(&encode_run, &String::from("Attack at dawn!")).unwrap();
    assert_eq!(
        artifact,
        "LXFOPVEFRNHR\n--------------------\n[0, 1, 1, 1, 1, 1, 2, 1, 1, 2, 1, 1, 1, 1, 3]\n"
    );
    let decode_run = Config::new(words(&["prog", "in.txt", "d", "LEMON"])).unwrap();
    assert_eq!(translate(&decode_run, &artifact), Ok(String::from("Attack at dawn!")));
    assert_eq!(
        translate(&encode_run, &String::from("Hi")),
        Err(CipherError::Key(KeyError::TooLong))
    );
    assert_eq!(
        translate(&decode_run, &String::from("Hi")),
        Err(CipherError::CorruptArtifact(CorruptArtifactError::MissingSeparator))
    );
}
