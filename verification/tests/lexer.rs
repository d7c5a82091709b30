use prett::lexer::{Lexer, ScanError};
use prett::token::{Token, TokenKind};

fn scanned(source: &str) -> Vec<Token> {
    match Lexer::new(source.to_string()).scan_tokens() {
        Ok(tokens) => tokens,
        Err(errors) => panic!("{:?}", errors),
    }
}

fn scan_errors(source: &str) -> Vec<(String, usize)> {
    match Lexer::new(source.to_string()).scan_tokens() {
        Ok(tokens) => panic!("{:?}", tokens),
        Err(errors) => errors
            .into_iter()
            .map(|error| (error.description, error.position))
            .collect(),
    }
}

fn kinds(tokens: &[Token]) -> Vec<TokenKind> {
    tokens.iter().map(|token| token.kind).collect()
}

fn lexemes(tokens: &[Token]) -> Vec<String> {
    tokens.iter().map(|token| token.lexeme.clone()).collect()
}

#[test]
fn new_scan_error_keeps_description_and_position() {
    let error = ScanError::new("unrecognized token", 7);
    assert_eq!(error.description, "unrecognized token");
    assert_eq!(error.position, 7);
}

#[test]
fn empty_source_scans_to_eof_alone() {
    let tokens = scanned("");
    assert_eq!(kinds(&tokens), vec![TokenKind::Eof]);
    assert_eq!(tokens[0].lexeme, "");
}

#[test]
fn sum_scans_to_three_tokens_and_eof() {
    let tokens = scanned("2 + 3");
    assert_eq!(
        kinds(&tokens),
        vec![TokenKind::Number, TokenKind::Plus, TokenKind::Number, TokenKind::Eof]
    );
    assert_eq!(lexemes(&tokens), vec!["2", "+", "3", ""]);
}

#[test]
fn every_symbol_scans_to_its_kind() {
    let tokens = scanned("+-*/^()");
    assert_eq!(
        kinds(&tokens),
        vec![
            TokenKind::Plus,
            TokenKind::Minus,
            TokenKind::Star,
            TokenKind::Slash,
            TokenKind::Cap,
            TokenKind::LeftParen,
            TokenKind::RightParen,
            TokenKind::Eof,
        ]
    );
    assert_eq!(lexemes(&tokens), vec!["+", "-", "*", "/", "^", "(", ")", ""]);
}

#[test]
fn blanks_give_no_token() {
    let tokens = scanned(" \t\r 7 \t");
    assert_eq!(kinds(&tokens), vec![TokenKind::Number, TokenKind::Eof]);
    assert_eq!(tokens[0].lexeme, "7");
}

#[test]
fn numbers_need_no_blank_between_them_and_symbols() {
    let tokens = scanned("12*(3.5-4)");
    assert_eq!(lexemes(&tokens), vec!["12", "*", "(", "3.5", "-", "4", ")", ""]);
}

#[test]
fn decimals_keep_their_lexeme() {
    assert_eq!(lexemes(&scanned("0.5")), vec!["0.5", ""]);
    assert_eq!(lexemes(&scanned("5.0")), vec!["5.0", ""]);
    assert_eq!(lexemes(&scanned("3.50")), vec!["3.50", ""]);
    assert_eq!(lexemes(&scanned("007")), vec!["007", ""]);
}

#[test]
fn lexeme_of_a_number_is_its_value_as_written() {
    let tokens = scanned("3.50");
    let value: f64 = tokens[0].lexeme.parse().unwrap();
    assert_eq!(value, 3.5);
}

#[test]
fn leading_point_is_an_unrecognized_token() {
    assert_eq!(scan_errors(".5"), vec![("unrecognized token".to_string(), 1)]);
}

#[test]
fn trailing_point_is_a_misformed_number() {
    assert_eq!(scan_errors("5."), vec![("misformed number".to_string(), 1)]);
}

#[test]
fn misformed_number_is_reported_at_its_first_digit() {
    assert_eq!(scan_errors("1 + 23. "), vec![("misformed number".to_string(), 5)]);
}

#[test]
fn scanning_goes_on_behind_the_point_of_a_misformed_number() {
    assert_eq!(
        scan_errors("5.a"),
        vec![("misformed number".to_string(), 1), ("unrecognized token".to_string(), 3)]
    );
    assert_eq!(
        scan_errors("5.."),
        vec![("misformed number".to_string(), 1), ("unrecognized token".to_string(), 3)]
    );
}

#[test]
fn second_point_in_a_number_is_an_unrecognized_token() {
    assert_eq!(scan_errors("1.2.3"), vec![("unrecognized token".to_string(), 4)]);
}

#[test]
fn all_errors_of_a_line_are_collected() {
    assert_eq!(
        scan_errors("$ 1 # 2."),
        vec![
            ("unrecognized token".to_string(), 1),
            ("unrecognized token".to_string(), 5),
            ("misformed number".to_string(), 7),
        ]
    );
}

#[test]
fn one_error_discards_all_tokens() {
    let result = Lexer::new("1 + 2 ?".to_string()).scan_tokens();
    assert!(result.is_err());
}

#[test]
fn newline_is_no_blank() {
    assert_eq!(scan_errors("1\n"), vec![("unrecognized token".to_string(), 2)]);
}

#[test]
fn letters_are_unrecognized() {
    assert_eq!(
        scan_errors("ab"),
        vec![("unrecognized token".to_string(), 1), ("unrecognized token".to_string(), 2)]
    );
}

#[test]
fn positions_count_characters_not_bytes() {
    assert_eq!(scan_errors("é"), vec![("unrecognized token".to_string(), 1)]);
    assert_eq!(scan_errors("2 × 3 ÷ 4"), vec![
        ("unrecognized token".to_string(), 3),
        ("unrecognized token".to_string(), 7),
    ]);
}

#[test]
fn other_digits_than_ascii_are_unrecognized() {
    assert_eq!(scan_errors("٣"), vec![("unrecognized token".to_string(), 1)]);
}

#[test]
fn scanned_tokens_end_with_the_only_eof() {
    let tokens = scanned("(1 + 2) * 3");
    let last = tokens.len() - 1;
    assert_eq!(tokens[last].kind, TokenKind::Eof);
    assert!(tokens[..last].iter().all(|token| token.kind != TokenKind::Eof));
}

#[test]
fn used_lexer_has_nothing_left_but_eof() {
    let mut lexer = Lexer::new("1 + 2".to_string());
    let first = lexer.scan_tokens().unwrap();
    assert_eq!(lexemes(&first), vec!["1", "+", "2", ""]);
    let second = lexer.scan_tokens().unwrap();
    assert_eq!(lexemes(&second), vec!["1", "+", "2", "", ""]);
}

#[test]
fn nul_character_is_unrecognized() {
    assert_eq!(scan_errors("1\0"), vec![("unrecognized token".to_string(), 2)]);
    assert_eq!(scan_errors("1.\0"), vec![
        ("misformed number".to_string(), 1),
        ("unrecognized token".to_string(), 3),
    ]);
}
