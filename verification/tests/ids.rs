use shortlink::id::is_id_character;
use shortlink::{generate_id, is_valid_id, ID_LENGTH};

#[test]
fn id_length_is_five() {
    assert_eq!(ID_LENGTH, 5);
}

#[test]
fn generated_id_has_five_url_safe_characters() {
    for _ in 0..200 {
        let id = generate_id();
        assert_eq!(id.chars().count(), 5);
        assert_eq!(id.len(), 5);
        assert!(id
            .chars()
            .all(|c| c.is_ascii_alphanumeric() || c == '_' || c == '-'));
        assert!(is_valid_id(&id));
    }
}

#[test]
fn generated_ids_are_not_all_the_same() {
    let first = generate_id();
    let mut some_other = false;
    for _ in 0..50 {
        if generate_id() != first {
            some_other = true;
        }
    }
    assert!(some_other);
}

#[test]
fn valid_id_accepts_every_kind_of_id_character() {
    assert!(is_valid_id("ab12c"));
    assert!(is_valid_id("zzzzz"));
    assert!(is_valid_id("AZaz_"));
    assert!(is_valid_id("-_-_-"));
    assert!(is_valid_id("09aZ-"));
}

#[test]
fn valid_id_rejects_wrong_lengths() {
    assert!(!is_valid_id(""));
    assert!(!is_valid_id("abcd"));
    assert!(!is_valid_id("abcdef"));
}

#[test]
fn valid_id_rejects_foreign_characters() {
    assert!(!is_valid_id("ab 2c"));
    assert!(!is_valid_id("ab/2c"));
    assert!(!is_valid_id("ab%2c"));
    assert!(!is_valid_id("ab.2c"));
    assert!(!is_valid_id("ab~2c"));
    assert!(!is_valid_id("abcd\u{e9}"));
    assert!(!is_valid_id("ab@[`"));
    assert!(!is_valid_id("ab{:c"));
}

#[test]
fn id_characters_are_letters_digits_underscore_and_hyphen() {
    let mut count = 0;
    for code in 0u32..0x250 {
        if let Some(c) = char::from_u32(code) {
            let expected = c.is_ascii_alphanumeric() || c == '_' || c == '-';
            assert_eq!(is_id_character(c), expected);
            if expected {
                count += 1;
            }
        }
    }
    assert_eq!(count, 64);
}
