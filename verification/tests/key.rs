use vigenere::{expand_key, generate_key, remove_punctuation, strip_punctuation, KeyError};

#[test]
fn key_is_repeated_over_the_content() {
    let message = String::from("Attack at dawn!");
    assert_eq!(generate_key(String::from("LEMON"), &message), Ok(String::from("LEMONLEMONLEM")));
}

#[test]
fn key_of_the_content_length_is_left_alone() {
    assert_eq!(expand_key(String::from("LEMON"), 5), Ok(String::from("LEMON")));
    assert_eq!(generate_key(String::from("abc"), &String::from("x.y.z")), Ok(String::from("abc")));
}

#[test]
fn expansion_is_cyclic_for_every_length() {
    let key: Vec<char> = "VIGENERE".chars().collect();
    for length in key.len()..60 {
        let expanded = expand_key(String::from("VIGENERE"), length).unwrap();
        let chars: Vec<char> = expanded.chars().collect();
        assert_eq!(chars.len(), length);
        for (i, c) in chars.iter().enumerate() {
            assert_eq!(*c, key[i % key.len()]);
        }
    }
}

#[test]
fn expanded_key_is_as_long_as_the_content() {
    for message in ["a", "Hello, World.", "one (two) [three]", "x\ny\rz", "!?!?"] {
        let message = String::from(message);
        let content = remove_punctuation(&message);
        let expanded = generate_key(String::from("k"), &message).unwrap();
        assert_eq!(expanded.chars().count(), content.chars().count());
    }
}

#[test]
fn key_longer_than_the_content_is_refused() {
    assert_eq!(generate_key(String::from("LEMON"), &String::from("Hi")), Err(KeyError::TooLong));
    assert_eq!(expand_key(String::from("LEMON"), 4), Err(KeyError::TooLong));
    assert_eq!(expand_key(String::from("LEMON"), 1), Err(KeyError::TooLong));
}

#[test]
fn empty_key_is_refused_when_there_is_content() {
    assert_eq!(generate_key(String::new(), &String::from("Hi")), Err(KeyError::Empty));
    assert_eq!(expand_key(String::new(), 1), Err(KeyError::Empty));
}

#[test]
fn no_content_gives_an_empty_key() {
    assert_eq!(generate_key(String::from("LEMON"), &String::new()), Ok(String::new()));
    assert_eq!(generate_key(String::from("LEMON"), &String::from(". , ;")), Ok(String::new()));
    assert_eq!(generate_key(String::new(), &String::new()), Ok(String::new()));
    assert_eq!(expand_key(String::from("LEMON"), 0), Ok(String::new()));
}

#[test]
fn only_the_fixed_set_is_stripped() {
    assert_eq!(strip_punctuation("Attack at dawn!"), "Attackatdawn!");
    assert_eq!(strip_punctuation("()[],\".;:' \n\r"), "");
    assert_eq!(strip_punctuation("a(b)c[d]e,f\"g.h;i:j'k l\nm\rn"), "abcdefghijklmn");
    assert_eq!(strip_punctuation("!#$%&*+-/<=>?@\\^_`{|}~0123456789"), "!#$%&*+-/<=>?@\\^_`{|}~0123456789");
    assert_eq!(strip_punctuation(""), "");
}

#[test]
fn content_is_transliterated_before_it_is_stripped() {
    assert_eq!(remove_punctuation(&String::from("Æneid")), "AEneid");
    assert_eq!(remove_punctuation(&String::from("étude, étude.")), "etudeetude");
    assert_eq!(remove_punctuation(&String::from("plain text")), "plaintext");
}

#[test]
fn key_covers_the_transliterated_content() {
    assert_eq!(generate_key(String::from("AB"), &String::from("Æneid")), Ok(String::from("ABABAB")));
}

#[test]
fn key_errors_have_messages() {
    assert_eq!(KeyError::TooLong.message(), "key longer than encodable content");
    assert_eq!(KeyError::Empty.message(), "key is empty");
    assert_eq!(KeyError::TooShort.message(), "key shorter than the letters to encode");
}
