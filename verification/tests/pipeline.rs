use prett::pipeline::{run, PrettError};
use prett::lexer::ScanError;
use prett::parser::ParseError;
use prett::token::{Token, TokenKind};

fn rendering(source: &str) -> String {
    match run(source.to_string()) {
        Ok(text) => text,
        Err(error) => panic!("{:?}", error),
    }
}

fn scan_failure(source: &str) -> Vec<ScanError> {
    match run(source.to_string()) {
        Err(PrettError::ScanError(errors)) => errors,
        other => panic!("{:?}", other),
    }
}

fn parse_failure(source: &str) -> ParseError {
    match run(source.to_string()) {
        Err(PrettError::ParseError(error)) => error,
        other => panic!("{:?}", other),
    }
}

#[test]
fn single_numbers_render_unchanged() {
    assert_eq!(rendering("42"), "42");
    assert_eq!(rendering("3.50"), "3.50");
    assert_eq!(rendering("0"), "0");
    assert_eq!(rendering("000.000"), "000.000");
    assert_eq!(rendering("123456789012345678901234567890.5"), "123456789012345678901234567890.5");
}

#[test]
fn sum_renders_in_prefix_notation() {
    assert_eq!(rendering("2 + 3"), "(+ 2 3)");
}

#[test]
fn subtraction_nests_from_the_left() {
    assert_eq!(rendering("2 - 3 - 4"), "(- (- 2 3) 4)");
}

#[test]
fn exponentiation_nests_from_the_right() {
    assert_eq!(rendering("2 ^ 3 ^ 4"), "(^ 2 (^ 3 4))");
}

#[test]
fn multiplication_binds_tighter_than_addition() {
    assert_eq!(rendering("2 + 3 * 4"), "(+ 2 (* 3 4))");
}

#[test]
fn grouping_overrides_precedence() {
    assert_eq!(rendering("(2 + 3) * 4"), "(* (+ 2 3) 4)");
}

#[test]
fn blanks_do_not_matter() {
    assert_eq!(rendering("2+3*4"), "(+ 2 (* 3 4))");
    assert_eq!(rendering("\t2 +\r3  "), "(+ 2 3)");
}

#[test]
fn all_five_operators_render() {
    assert_eq!(rendering("1 + 2 - 3 * 4 / 5 ^ 6"), "(- (+ 1 2) (/ (* 3 4) (^ 5 6)))");
}

#[test]
fn bare_points_are_scan_errors() {
    let errors = scan_failure(".5");
    assert_eq!(errors.len(), 1);
    assert_eq!(errors[0].description, "unrecognized token");
    assert_eq!(errors[0].position, 1);
    let errors = scan_failure("5.");
    assert_eq!(errors.len(), 1);
    assert_eq!(errors[0].description, "misformed number");
    assert_eq!(errors[0].position, 1);
}

#[test]
fn points_between_digits_are_fine() {
    assert_eq!(rendering("0.5"), "0.5");
    assert_eq!(rendering("5.0"), "5.0");
}

#[test]
fn missing_right_operand_is_a_parse_error_at_eof() {
    let error = parse_failure("2 +");
    assert_eq!(error.description, "no parselet found for this token");
    assert_eq!(error.token.kind, TokenKind::Eof);
    assert_eq!(error.token.lexeme, "");
}

#[test]
fn unmatched_group_is_a_parse_error_at_eof() {
    let error = parse_failure("(2 + 3");
    assert_eq!(error.description, "expecting ')'");
    assert_eq!(error.token.kind, TokenKind::Eof);
    assert_eq!(error.token.lexeme, "");
}

#[test]
fn scan_errors_come_before_parse_errors() {
    let errors = scan_failure("(2 + $");
    assert_eq!(errors.len(), 1);
    assert_eq!(errors[0].description, "unrecognized token");
    assert_eq!(errors[0].position, 6);
}

#[test]
fn empty_line_is_a_parse_error() {
    let error = parse_failure("");
    assert_eq!(error.description, "no parselet found for this token");
    assert_eq!(error.token.kind, TokenKind::Eof);
}

#[test]
fn prefix_notation_does_not_read_back() {
    let text = rendering("2 + 3");
    assert_eq!(text, "(+ 2 3)");
    let error = parse_failure(&text);
    assert_eq!(error.description, "no parselet found for this token");
    assert_eq!(error.token.kind, TokenKind::Plus);
}

#[test]
fn errors_convert_into_the_collection() {
    match PrettError::from(vec![ScanError::new("unrecognized token", 3)]) {
        PrettError::ScanError(errors) => {
            assert_eq!(errors.len(), 1);
            assert_eq!(errors[0].position, 3);
        }
        other => panic!("{:?}", other),
    }
    let token = Token::new(TokenKind::Eof, String::new());
    match PrettError::from(ParseError::new("expecting ')'", &token)) {
        PrettError::ParseError(error) => assert_eq!(error.description, "expecting ')'"),
        other => panic!("{:?}", other),
    }
}
