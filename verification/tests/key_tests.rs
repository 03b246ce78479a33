use env_secrets::key::{is_valid_key, validate_keys};
use env_secrets::error::StoreError;

#[test]
fn accepts_identifier_shaped_keys() {
    assert!(is_valid_key("A"));
    assert!(is_valid_key("z"));
    assert!(is_valid_key("DATABASE_URL"));
    assert!(is_valid_key("aws_secret_access_key_2"));
    assert!(is_valid_key("a_"));
}

#[test]
fn rejects_keys_that_do_not_start_with_a_letter() {
    assert!(!is_valid_key(""));
    assert!(!is_valid_key("1KEY"));
    assert!(!is_valid_key("_KEY"));
    assert!(!is_valid_key(" KEY"));
    assert!(!is_valid_key("-k"));
}

#[test]
fn rejects_keys_with_characters_outside_the_grammar() {
    assert!(!is_valid_key("MY-KEY"));
    assert!(!is_valid_key("MY KEY"));
    assert!(!is_valid_key("KEY="));
    assert!(!is_valid_key("KEY$"));
    assert!(!is_valid_key("K\u{e9}Y"));
    assert!(!is_valid_key("KEY'"));
    assert!(!is_valid_key("\u{e9}"));
}

#[test]
fn validate_keys_names_the_offender() {
    assert_eq!(validate_keys(&["GOOD".to_string()]), Ok(()));
    assert_eq!(
        validate_keys(&["no good".to_string()]),
        Err(StoreError::InvalidKey("no good".to_string()))
    );
}

#[test]
fn validate_keys_fails_on_the_first_invalid_key() {
    let keys = vec!["A".to_string(), "b-c".to_string(), "9".to_string()];
    assert_eq!(validate_keys(&keys), Err(StoreError::InvalidKey("b-c".to_string())));
    let keys = vec!["A".to_string(), "B_1".to_string()];
    assert_eq!(validate_keys(&keys), Ok(()));
    let none: Vec<String> = vec![];
    assert_eq!(validate_keys(&none), Ok(()));
}
