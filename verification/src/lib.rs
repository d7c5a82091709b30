//! Scanning, parsing and printing of arithmetic expressions.
//!
//! A line of source text is turned into tokens by the [`lexer`], the tokens
//! into an expression tree by the [`parser`], and the tree into fully
//! parenthesised prefix notation by the [`pretty_printer`]; the [`pipeline`]
//! runs the three in a row, and [`messages`] words the errors. Every stage
//! comes with a mathematical model, and every executable function is proved
//! to compute what its model says.

pub mod expr;
pub mod lexer;
pub mod messages;
pub mod parser;
pub mod pipeline;
pub mod pretty_printer;
pub mod token;
