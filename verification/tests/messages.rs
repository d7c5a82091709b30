use prett::lexer::ScanError;
use prett::parser::ParseError;
use prett::pipeline::{run, PrettError};
use prett::token::{Token, TokenKind};

#[test]
fn scan_message_names_column_and_description() {
    let error = ScanError::new("unrecognized token", 5);
    assert_eq!(error.message(), "Scanning error at column 5: unrecognized token");
}

#[test]
fn columns_are_written_in_decimal() {
    assert_eq!(ScanError::new("x", 0).message(), "Scanning error at column 0: x");
    assert_eq!(ScanError::new("x", 9).message(), "Scanning error at column 9: x");
    assert_eq!(ScanError::new("x", 10).message(), "Scanning error at column 10: x");
    assert_eq!(ScanError::new("x", 1203).message(), "Scanning error at column 1203: x");
    assert_eq!(
        ScanError::new("x", 4294967295).message(),
        "Scanning error at column 4294967295: x"
    );
    assert_eq!(
        ScanError::new("x", usize::MAX).message(),
        format!("Scanning error at column {}: x", usize::MAX)
    );
}

#[test]
fn parse_message_names_lexeme_and_description() {
    let token = Token::new(TokenKind::Number, "3".to_string());
    let error = ParseError::new("expecting ')'", &token);
    assert_eq!(error.message(), "Parsing error at '3': expecting ')'");
}

#[test]
fn scan_errors_give_one_line_each() {
    let error = run("$ 1 # 2.".to_string()).unwrap_err();
    assert_eq!(
        error.messages(),
        vec![
            "Scanning error at column 1: unrecognized token",
            "Scanning error at column 5: unrecognized token",
            "Scanning error at column 7: misformed number",
        ]
    );
}

#[test]
fn parse_error_gives_one_line() {
    let error = run("(2 + 3".to_string()).unwrap_err();
    assert_eq!(error.messages(), vec!["Parsing error at '': expecting ')'"]);
    let error = run("2 * / 3".to_string()).unwrap_err();
    assert_eq!(error.messages(), vec!["Parsing error at '/': no parselet found for this token"]);
}

#[test]
fn no_scan_error_gives_no_line() {
    assert!(PrettError::ScanError(Vec::new()).messages().is_empty());
}
