use bf_interpreter::machine::RuntimeError;
use bf_interpreter::run::{interpret, Ending};
use bf_interpreter::validate::ValidationError;

fn lines(text: &[&str]) -> Vec<Vec<u8>> {
    text.iter().map(|line| line.as_bytes().to_vec()).collect()
}

#[test]
fn pipeline_outputs_code_point_two() {
    let execution = interpret("++.", &lines(&[]), 1000).unwrap();
    assert_eq!(execution.ending, Ending::Halted);
    assert_eq!(execution.output, vec!['\u{2}']);
    assert_eq!(execution.output[0] as u32, 2);
}

#[test]
fn pipeline_clearing_loop_terminates_silently() {
    let execution = interpret("+[-]", &lines(&[]), 1000).unwrap();
    assert_eq!(execution.ending, Ending::Halted);
    assert!(execution.output.is_empty());
    assert_eq!(execution.consumed, 0);
}

#[test]
fn pipeline_echoes_input_line() {
    let execution = interpret(",.", &lines(&["A"]), 1000).unwrap();
    assert_eq!(execution.ending, Ending::Halted);
    assert_eq!(execution.output, vec!['A']);
    assert_eq!(execution.consumed, 1);
}

#[test]
fn pipeline_rejects_open_bracket() {
    let error = interpret("[", &lines(&[]), 1000).unwrap_err();
    assert_eq!(error, ValidationError::UnclosedBrackets { indices: vec![0] });
}

#[test]
fn pipeline_rejects_before_running() {
    let error = interpret("+.]", &lines(&[]), 1000).unwrap_err();
    assert_eq!(error, ValidationError::UnmatchedClosingBracket { index: 2 });
    let error = interpret("+. ", &lines(&[]), 1000).unwrap_err();
    assert_eq!(error, ValidationError::InvalidCharacter { character: ' ', index: 2 });
}

#[test]
fn pipeline_reports_runtime_failure() {
    let execution = interpret(".<", &lines(&[]), 1000).unwrap();
    assert_eq!(execution.ending, Ending::Failed(RuntimeError::TapeUnderflow));
    assert_eq!(execution.output, vec!['\u{0}']);
    let execution = interpret(",", &lines(&[]), 1000).unwrap();
    assert_eq!(execution.ending, Ending::Failed(RuntimeError::InputExhausted));
    let execution = interpret(",", &lines(&[""]), 1000).unwrap();
    assert_eq!(execution.ending, Ending::Failed(RuntimeError::EmptyInputLine));
}

#[test]
fn pipeline_prints_a_letter_with_a_loop() {
    // 8 * 8 + 1 = 65
    let execution = interpret("++++++++[>++++++++<-]>+.", &lines(&[]), 10000).unwrap();
    assert_eq!(execution.ending, Ending::Halted);
    assert_eq!(execution.output, vec!['A']);
}
