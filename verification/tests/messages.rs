use bf_interpreter::message::{push_decimal, push_joined};
use bf_interpreter::validate::{validate, ValidationError};

#[test]
fn decimal_numerals() {
    for n in [0usize, 7, 9, 10, 42, 99, 100, 1005, 30000, usize::MAX] {
        let mut text = String::from("n=");
        push_decimal(&mut text, n);
        assert_eq!(text, format!("n={}", n));
    }
}

#[test]
fn joined_numerals() {
    let mut text = String::new();
    push_joined(&mut text, &vec![]);
    assert_eq!(text, "");
    push_joined(&mut text, &vec![4]);
    assert_eq!(text, "4");
    let mut text = String::from(": ");
    push_joined(&mut text, &vec![0, 12, 345]);
    assert_eq!(text, ": 0, 12, 345");
}

#[test]
fn invalid_character_message() {
    let error = validate("++x").unwrap_err();
    assert_eq!(error.message(), "Invalid Char: x, at idx: 2");
    let error = ValidationError::InvalidCharacter { character: '\u{e9}', index: 10 };
    assert_eq!(error.message(), "Invalid Char: \u{e9}, at idx: 10");
}

#[test]
fn unmatched_closing_bracket_message() {
    let error = validate("[]]").unwrap_err();
    assert_eq!(error.message(), "Unexpected closing bracket at: 2");
}

#[test]
fn unclosed_bracket_message_singular() {
    let error = validate("+[").unwrap_err();
    assert_eq!(error.message(), "Unclosed bracket at index: 1");
}

#[test]
fn unclosed_brackets_message_plural() {
    let error = validate("[+[[]").unwrap_err();
    assert_eq!(error.message(), "Unclosed brackets at indexs: 0, 2");
}
