use bf_interpreter::program::Program;
use bf_interpreter::syntax::is_instruction_char;
use bf_interpreter::validate::{validate, ValidationError};

fn invalid(character: char, index: usize) -> Result<(), ValidationError> {
    Err(ValidationError::InvalidCharacter { character, index })
}

fn unmatched(index: usize) -> Result<(), ValidationError> {
    Err(ValidationError::UnmatchedClosingBracket { index })
}

fn unclosed(indices: Vec<usize>) -> Result<(), ValidationError> {
    Err(ValidationError::UnclosedBrackets { indices })
}

#[test]
fn alphabet_has_eight_symbols() {
    for c in "<>+-[].,".chars() {
        assert!(is_instruction_char(c));
    }
    let accepted = (0u32..=0x10FFFF)
        .filter_map(char::from_u32)
        .filter(|c| is_instruction_char(*c))
        .count();
    assert_eq!(accepted, 8);
}

#[test]
fn empty_program_is_accepted() {
    assert_eq!(validate(""), Ok(()));
}

#[test]
fn flat_program_is_accepted() {
    assert_eq!(validate("+-<>.,"), Ok(()));
}

#[test]
fn balanced_program_is_accepted() {
    assert_eq!(validate("+[-]"), Ok(()));
    assert_eq!(validate("[][]"), Ok(()));
    assert_eq!(validate("++[>++[-]<-]."), Ok(()));
}

#[test]
fn deep_nesting_is_accepted() {
    for depth in [1usize, 2, 17, 1000] {
        let mut text = String::new();
        for _ in 0..depth {
            text.push('[');
        }
        text.push('+');
        for _ in 0..depth {
            text.push(']');
        }
        assert_eq!(validate(&text), Ok(()));
    }
}

#[test]
fn only_foreign_characters_fail_at_start() {
    assert_eq!(validate("abc"), invalid('a', 0));
    assert_eq!(validate(" "), invalid(' ', 0));
    assert_eq!(validate("hello world"), invalid('h', 0));
}

#[test]
fn first_foreign_character_is_reported() {
    assert_eq!(validate("++a+b"), invalid('a', 2));
    assert_eq!(validate("+[-]x"), invalid('x', 4));
}

#[test]
fn trailing_whitespace_is_rejected() {
    assert_eq!(validate("+.\n"), invalid('\n', 2));
    assert_eq!(validate("+. "), invalid(' ', 2));
}

#[test]
fn non_ascii_character_is_rejected() {
    assert_eq!(validate("+\u{e9}+"), invalid('\u{e9}', 1));
    assert_eq!(validate("\u{1F600}"), invalid('\u{1F600}', 0));
}

#[test]
fn character_set_is_judged_before_brackets() {
    assert_eq!(validate("]a"), invalid('a', 1));
    assert_eq!(validate("[[a"), invalid('a', 2));
}

#[test]
fn lone_closing_bracket_is_unmatched() {
    assert_eq!(validate("]"), unmatched(0));
    assert_eq!(validate("+]"), unmatched(1));
}

#[test]
fn closing_bracket_after_balanced_prefix_is_unmatched() {
    assert_eq!(validate("[]]"), unmatched(2));
    assert_eq!(validate("[[]]+]["), unmatched(5));
}

#[test]
fn first_unmatched_closing_bracket_is_reported() {
    assert_eq!(validate("]]"), unmatched(0));
    assert_eq!(validate("][["), unmatched(0));
}

#[test]
fn single_open_bracket_is_unclosed() {
    assert_eq!(validate("["), unclosed(vec![0]));
}

#[test]
fn every_unclosed_bracket_is_listed() {
    assert_eq!(validate("[["), unclosed(vec![0, 1]));
    assert_eq!(validate("[[]"), unclosed(vec![0]));
    assert_eq!(validate("[[]["), unclosed(vec![0, 3]));
    assert_eq!(validate("+[>[-]<[[.]"), unclosed(vec![1, 7]));
}

#[test]
fn parse_keeps_the_text() {
    let program = Program::parse("+[-]").unwrap();
    assert_eq!(program.len(), 4);
    assert_eq!(program.instruction(0), Some('+'));
    assert_eq!(program.instruction(1), Some('['));
    assert_eq!(program.instruction(2), Some('-'));
    assert_eq!(program.instruction(3), Some(']'));
    assert_eq!(program.instruction(4), None);
}

#[test]
fn parse_hands_back_the_diagnostic() {
    assert_eq!(
        Program::parse("[").err(),
        Some(ValidationError::UnclosedBrackets { indices: vec![0] })
    );
    assert_eq!(
        Program::parse("]").err(),
        Some(ValidationError::UnmatchedClosingBracket { index: 0 })
    );
    assert_eq!(
        Program::parse("+ +").err(),
        Some(ValidationError::InvalidCharacter { character: ' ', index: 1 })
    );
}
