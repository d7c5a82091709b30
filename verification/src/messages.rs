//! The lines that tell a user of an error.

use vstd::prelude::*;
use vstd::string::*;
use crate::lexer::{error_views, ScanError, ScanErrorView};
use crate::parser::{ParseError, ParseErrorView};
use crate::pipeline::{PrettError, PrettErrorView};

verus! {

/// The character of the decimal digit `d`.
pub open spec fn digit(d: nat) -> char
    recommends
        d < 10,
{
    if d == 0 {
        '0'
    } else if d == 1 {
        '1'
    } else if d == 2 {
        '2'
    } else if d == 3 {
        '3'
    } else if d == 4 {
        '4'
    } else if d == 5 {
        '5'
    } else if d == 6 {
        '6'
    } else if d == 7 {
        '7'
    } else if d == 8 {
        '8'
    } else {
        '9'
    }
}

/// The number `n` in decimal digits, without leading zeros.
pub open spec fn decimal(n: nat) -> Seq<char>
    decreases n,
{
    if n < 10 {
        seq![digit(n)]
    } else {
        decimal(n / 10).push(digit(n % 10))
    }
}

/// The line that tells of a lexing error.
pub open spec fn scan_message(error: ScanErrorView) -> Seq<char> {
    "Scanning error at column "@ + decimal(error.position) + ": "@ + error.description
}

/// The line that tells of a parse error.
pub open spec fn parse_message(error: ParseErrorView) -> Seq<char> {
    "Parsing error at '"@ + error.token.lexeme + "': "@ + error.description
}

/// The lines that tell of an error: one for each lexing error, in their
/// order, or the one of the parse error.
pub open spec fn messages(error: PrettErrorView) -> Seq<Seq<char>> {
    match error {
        PrettErrorView::ScanError(errors) => errors.map_values(
            |error: ScanErrorView| scan_message(error),
        ),
        PrettErrorView::ParseError(error) => seq![parse_message(error)],
    }
}

/// The lines of `lines` as mathematical values.
pub open spec fn line_views(lines: Seq<String>) -> Seq<Seq<char>> {
    lines.map_values(|line: String| line@)
}

/// The decimal digit `d` as text.
fn digit_text(d: usize) -> (text: &'static str)
    requires
        d < 10,
    ensures
        text@ == seq![digit(d as nat)],
{
    proof {
        reveal_strlit("0");
        reveal_strlit("1");
        reveal_strlit("2");
        reveal_strlit("3");
        reveal_strlit("4");
        reveal_strlit("5");
        reveal_strlit("6");
        reveal_strlit("7");
        reveal_strlit("8");
        reveal_strlit("9");
    }
    let text = match d {
        0 => "0",
        1 => "1",
        2 => "2",
        3 => "3",
        4 => "4",
        5 => "5",
        6 => "6",
        7 => "7",
        8 => "8",
        _ => "9",
    };
    assert(text@ == seq![digit(d as nat)]);
    text
}

/// The number `n` in decimal digits.
fn decimal_text(n: usize) -> (text: String)
    ensures
        text@ == decimal(n as nat),
    decreases n,
{
    let mut text = if n < 10 {
        String::new()
    } else {
        decimal_text(n / 10)
    };
    text.append(digit_text(n % 10));
    text
}

impl ScanError {
    /// The line that tells of the error: its column and its description.
    pub fn message(&self) -> (line: String)
        ensures
            line@ == scan_message(self@),
    {
        let mut line = String::from_str("Scanning error at column ");
        line.append(decimal_text(self.position).as_str());
        line.append(": ");
        line.append(self.description.as_str());
        line
    }
}

impl ParseError {
    /// The line that tells of the error: the lexeme of its token and its
    /// description.
    pub fn message(&self) -> (line: String)
        ensures
            line@ == parse_message(self@),
    {
        let mut line = String::from_str("Parsing error at '");
        line.append(self.token.lexeme.as_str());
        line.append("': ");
        line.append(self.description.as_str());
        line
    }
}

impl PrettError {
    /// The lines to print for the error.
    pub fn messages(&self) -> (lines: Vec<String>)
        ensures
            line_views(lines@) == messages(self@),
    {
        let mut lines: Vec<String> = Vec::new();
        match self {
            PrettError::ScanError(errors) => {
                let mut i: usize = 0;
                while i < errors.len()
                    invariant
                        i <= errors.len(),
                        lines.len() == i,
                        forall|j: int| 0 <= j < i ==> (#[trigger] lines[j])@ == scan_message(errors[j]@),
                    decreases errors.len() - i,
                {
                    lines.push(errors[i].message());
                    i += 1;
                }
                assert(line_views(lines@) == messages(self@));
            },
            PrettError::ParseError(error) => {
                lines.push(error.message());
            },
        }
        lines
    }
}

} // verus!
