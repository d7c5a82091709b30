//! Tokens: the lexical categories, and what the parser needs to know of each.

use vstd::prelude::*;

verus! {

/// The lexical category of a token.
///
/// A number carries no value here: its lexeme is the exact numeral that was
/// read, and stands for the value.
#[derive(Clone, Copy, Debug, PartialEq, Eq, Structural)]
pub enum TokenKind {
    /// A number.
    Number,
    /// Sum operator.
    Plus,
    /// Minus operator.
    Minus,
    /// Multiplication operator.
    Star,
    /// Division operator.
    Slash,
    /// Exponentiation operator.
    Cap,
    /// Opening parenthesis.
    LeftParen,
    /// Closing parenthesis.
    RightParen,
    /// End of input.
    Eof,
}

impl TokenKind {
    /// One of the five binary operators.
    pub open spec fn is_operator(self) -> bool {
        self == TokenKind::Plus || self == TokenKind::Minus || self == TokenKind::Star
            || self == TokenKind::Slash || self == TokenKind::Cap
    }

    /// How tightly an operator binds; higher binds tighter. Zero for
    /// everything that is not an operator.
    pub open spec fn binding_power(self) -> nat {
        match self {
            TokenKind::Plus | TokenKind::Minus => 10,
            TokenKind::Star | TokenKind::Slash => 20,
            TokenKind::Cap => 30,
            _ => 0,
        }
    }

    /// Whether a chain of this operator groups from the left. Only
    /// exponentiation groups from the right.
    pub open spec fn is_left_associative(self) -> bool {
        self != TokenKind::Cap
    }

    /// The binding power that an operator's right operand is parsed with:
    /// the operator's own if it is left-associative, one less if not.
    pub open spec fn right_binding_power(self) -> nat {
        if self.is_left_associative() {
            self.binding_power()
        } else {
            (self.binding_power() - 1) as nat
        }
    }
}

/// A token as a mathematical value: its kind, and its lexeme as a sequence
/// of characters.
pub struct TokenView {
    pub kind: TokenKind,
    pub lexeme: Seq<char>,
}

/// A token: a lexical category and the exact source text that produced it.
#[derive(Debug)]
pub struct Token {
    pub kind: TokenKind,
    pub lexeme: String,
}

impl View for Token {
    type V = TokenView;

    open spec fn view(&self) -> TokenView {
        TokenView { kind: self.kind, lexeme: self.lexeme@ }
    }
}

/// The token that ends every scan: end of input, with an empty lexeme.
pub open spec fn eof_token() -> TokenView {
    TokenView { kind: TokenKind::Eof, lexeme: Seq::empty() }
}

/// The tokens of `tokens` as mathematical values.
pub open spec fn token_views(tokens: Seq<Token>) -> Seq<TokenView> {
    tokens.map_values(|token: Token| token@)
}

impl Clone for Token {
    fn clone(&self) -> (copy: Self)
        ensures
            copy == *self,
    {
        Token { kind: self.kind, lexeme: self.lexeme.clone() }
    }
}

impl Token {
    /// Create a new token from kind and lexeme.
    pub fn new(kind: TokenKind, lexeme: String) -> (token: Self)
        ensures
            token.kind == kind,
            token.lexeme == lexeme,
    {
        Token { kind, lexeme }
    }

    /// Return true if the token is an operator.
    pub fn is_operator(&self) -> (yes: bool)
        ensures
            yes == self.kind.is_operator(),
    {
        match self.kind {
            TokenKind::Minus
            | TokenKind::Plus
            | TokenKind::Slash
            | TokenKind::Star
            | TokenKind::Cap => true,
            _ => false,
        }
    }

    /// Return true if the token is a number.
    pub fn is_number(&self) -> (yes: bool)
        ensures
            yes == (self.kind == TokenKind::Number),
    {
        match self.kind {
            TokenKind::Number => true,
            _ => false,
        }
    }

    /// Return the binding power of an operator.
    pub fn binding_power(&self) -> (power: u8)
        requires
            self.kind.is_operator(),
        ensures
            power == self.kind.binding_power(),
    {
        match self.kind {
            TokenKind::Minus | TokenKind::Plus => 10,
            TokenKind::Star | TokenKind::Slash => 20,
            _ => 30,
        }
    }

    /// Return true if the operator is left-associative.
    pub fn is_left_associative(&self) -> (yes: bool)
        requires
            self.kind.is_operator(),
        ensures
            yes == self.kind.is_left_associative(),
    {
        match self.kind {
            TokenKind::Cap => false,
            _ => true,
        }
    }
}

} // verus!
