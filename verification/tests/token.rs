use prett::token::{Token, TokenKind};

fn token(kind: TokenKind, lexeme: &str) -> Token {
    Token::new(kind, lexeme.to_string())
}

#[test]
fn new_token_keeps_kind_and_lexeme() {
    let star = token(TokenKind::Star, "*");
    assert_eq!(star.kind, TokenKind::Star);
    assert_eq!(star.lexeme, "*");
}

#[test]
fn cloned_token_is_equal_in_both_fields() {
    let number = token(TokenKind::Number, "12.50");
    let copy = number.clone();
    assert_eq!(copy.kind, TokenKind::Number);
    assert_eq!(copy.lexeme, "12.50");
}

#[test]
fn the_five_operators_are_operators() {
    assert!(token(TokenKind::Plus, "+").is_operator());
    assert!(token(TokenKind::Minus, "-").is_operator());
    assert!(token(TokenKind::Star, "*").is_operator());
    assert!(token(TokenKind::Slash, "/").is_operator());
    assert!(token(TokenKind::Cap, "^").is_operator());
}

#[test]
fn nothing_else_is_an_operator() {
    assert!(!token(TokenKind::Number, "1").is_operator());
    assert!(!token(TokenKind::LeftParen, "(").is_operator());
    assert!(!token(TokenKind::RightParen, ")").is_operator());
    assert!(!token(TokenKind::Eof, "").is_operator());
}

#[test]
fn only_numbers_are_numbers() {
    assert!(token(TokenKind::Number, "1").is_number());
    assert!(!token(TokenKind::Plus, "+").is_number());
    assert!(!token(TokenKind::Minus, "-").is_number());
    assert!(!token(TokenKind::Star, "*").is_number());
    assert!(!token(TokenKind::Slash, "/").is_number());
    assert!(!token(TokenKind::Cap, "^").is_number());
    assert!(!token(TokenKind::LeftParen, "(").is_number());
    assert!(!token(TokenKind::RightParen, ")").is_number());
    assert!(!token(TokenKind::Eof, "").is_number());
}

#[test]
fn binding_powers_are_ten_twenty_thirty() {
    assert_eq!(token(TokenKind::Plus, "+").binding_power(), 10);
    assert_eq!(token(TokenKind::Minus, "-").binding_power(), 10);
    assert_eq!(token(TokenKind::Star, "*").binding_power(), 20);
    assert_eq!(token(TokenKind::Slash, "/").binding_power(), 20);
    assert_eq!(token(TokenKind::Cap, "^").binding_power(), 30);
}

#[test]
fn only_exponentiation_groups_from_the_right() {
    assert!(token(TokenKind::Plus, "+").is_left_associative());
    assert!(token(TokenKind::Minus, "-").is_left_associative());
    assert!(token(TokenKind::Star, "*").is_left_associative());
    assert!(token(TokenKind::Slash, "/").is_left_associative());
    assert!(!token(TokenKind::Cap, "^").is_left_associative());
}
