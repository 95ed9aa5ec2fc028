use moss::cli::{parse_answer, parse_approval, parse_input_line, InputAction};

#[test]
fn empty_and_exit_lines() {
    assert_eq!(parse_input_line(""), InputAction::Skip);
    assert_eq!(parse_input_line("   \r"), InputAction::Skip);
    assert_eq!(parse_input_line("exit"), InputAction::Exit);
    assert_eq!(parse_input_line("quit  "), InputAction::Exit);
}

#[test]
fn queries_keep_leading_whitespace() {
    assert_eq!(parse_input_line("  exit"), InputAction::Query("  exit".to_string()));
    assert_eq!(
        parse_input_line("book a flight\r"),
        InputAction::Query("book a flight".to_string())
    );
    assert_eq!(parse_input_line("Exit"), InputAction::Query("Exit".to_string()));
}

#[test]
fn approval_answers() {
    assert!(parse_approval("y\n"));
    assert!(parse_approval("  Y  "));
    assert!(!parse_approval("yes"));
    assert!(!parse_approval("n"));
    assert!(!parse_approval(""));
}

#[test]
fn question_answers_are_trimmed() {
    assert_eq!(parse_answer("  123456 \n"), "123456");
}
