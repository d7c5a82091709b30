//! The three stages in a row: scan a line, parse its tokens, print the tree.

use vstd::prelude::*;
use vstd::std_specs::convert::FromSpecImpl;
use crate::expr::ExprView;
use crate::lexer::{
    error_views, is_numeral, lemma_numeral_scans_to_itself, scan, Lexer, ScanError, ScanErrorView,
};
use crate::parser::{
    parse, parse_operators, parse_primary, ParseError, ParseErrorView, ParseFault, Parser,
};
use crate::pretty_printer::render;
use crate::token::{eof_token, TokenKind, TokenView};

verus! {

/// Collection of possible errors, as a mathematical value.
pub enum PrettErrorView {
    ScanError(Seq<ScanErrorView>),
    ParseError(ParseErrorView),
}

/// Collection of possible errors.
#[derive(Debug)]
pub enum PrettError {
    ScanError(Vec<ScanError>),
    ParseError(ParseError),
}

impl View for PrettError {
    type V = PrettErrorView;

    open spec fn view(&self) -> PrettErrorView {
        match self {
            PrettError::ScanError(errors) => PrettErrorView::ScanError(error_views(errors@)),
            PrettError::ParseError(error) => PrettErrorView::ParseError(error@),
        }
    }
}

impl From<Vec<ScanError>> for PrettError {
    fn from(errors: Vec<ScanError>) -> (error: Self) {
        PrettError::ScanError(errors)
    }
}

impl FromSpecImpl<Vec<ScanError>> for PrettError {
    open spec fn obeys_from_spec() -> bool {
        true
    }

    open spec fn from_spec(errors: Vec<ScanError>) -> Self {
        PrettError::ScanError(errors)
    }
}

impl From<ParseError> for PrettError {
    fn from(error: ParseError) -> (wrapped: Self) {
        PrettError::ParseError(error)
    }
}

impl FromSpecImpl<ParseError> for PrettError {
    open spec fn obeys_from_spec() -> bool {
        true
    }

    open spec fn from_spec(error: ParseError) -> Self {
        PrettError::ParseError(error)
    }
}

/// What a line of source comes to: the prefix notation of its expression,
/// or the errors of the scan, or else the error of the parse.
pub open spec fn interpret(source: Seq<char>) -> Result<Seq<char>, PrettErrorView> {
    match scan(source) {
        Ok(tokens) => match parse(tokens) {
            Ok(expr) => Ok(expr.rendered()),
            Err(error) => Err(PrettErrorView::ParseError(error)),
        },
        Err(errors) => Err(PrettErrorView::ScanError(errors)),
    }
}

/// A line that is one numeral comes to itself: the number is printed as
/// it was written.
pub proof fn lemma_numeral_renders_unchanged(source: Seq<char>)
    requires
        is_numeral(source),
    ensures
        interpret(source) == Ok::<Seq<char>, PrettErrorView>(source),
{
    lemma_numeral_scans_to_itself(source);
    let number = TokenView { kind: TokenKind::Number, lexeme: source };
    let tokens = seq![number, eof_token()];
    assert(parse_primary(tokens, 0) == Ok::<ExprView, ParseFault>(
        ExprView::Literal { token: number },
    ));
    assert(parse_operators(tokens, 1, 0, ExprView::Literal { token: number }) == Ok::<
        ExprView,
        ParseFault,
    >(ExprView::Literal { token: number }));
}

/// What a run has handed back, as a mathematical value.
pub open spec fn run_result_view(result: Result<String, PrettError>) -> Result<
    Seq<char>,
    PrettErrorView,
> {
    match result {
        Ok(text) => Ok(text@),
        Err(error) => Err(error@),
    }
}

/// Run an actual piece of source code: the text to print for it, or what
/// was wrong with it.
pub fn run(source: String) -> (result: Result<String, PrettError>)
    ensures
        run_result_view(result) == interpret(source@),
{
    // Tokenize.
    let mut lexer = Lexer::new(source);
    let tokens = match lexer.scan_tokens() {
        Ok(tokens) => tokens,
        Err(errors) => {
            return Err(PrettError::from(errors));
        },
    };

    // Parse.
    let mut parser = Parser::new(tokens);
    let parsed_expr = match parser.parse() {
        Ok(expr) => expr,
        Err(error) => {
            return Err(PrettError::from(error));
        },
    };

    // Print the expr with a pretty printer.
    Ok(render(&parsed_expr))
}

} // verus!
