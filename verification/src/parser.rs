//! The parser: from tokens to an expression tree, by precedence climbing.

use vstd::prelude::*;
use crate::expr::{Binary, Expr, ExprView, Grouping, Literal};
use crate::token::{eof_token, token_views, Token, TokenKind, TokenView};

verus! {

/// A parse error as a mathematical value.
pub struct ParseErrorView {
    pub description: Seq<char>,
    pub token: TokenView,
}

/// A parse error.
#[derive(Debug)]
pub struct ParseError {
    pub description: String,
    pub token: Token,
}

impl View for ParseError {
    type V = ParseErrorView;

    open spec fn view(&self) -> ParseErrorView {
        ParseErrorView { description: self.description@, token: self.token@ }
    }
}

impl ParseError {
    /// Make a new parse error.
    pub fn new(description: &str, token: &Token) -> (error: Self)
        ensures
            error.description@ == description@,
            error.token == *token,
    {
        ParseError { description: description.to_owned(), token: token.clone() }
    }
}

/// Where parsing fails and why: the fixed description, and the index of the
/// token that should not have stood there.
pub struct ParseFault {
    pub description: Seq<char>,
    pub at: int,
}

impl ParseFault {
    /// The error that reports the fault: the description and the offending
    /// token.
    pub open spec fn error(self, tokens: Seq<TokenView>) -> ParseErrorView {
        ParseErrorView { description: self.description, token: token_at(tokens, self.at) }
    }
}

/// The token at `pos`; the end-of-input token where there is none.
pub open spec fn token_at(tokens: Seq<TokenView>, pos: int) -> TokenView {
    if 0 <= pos < tokens.len() {
        tokens[pos]
    } else {
        eof_token()
    }
}

/// The number of tokens from `pos` on.
pub open spec fn remaining(tokens: Seq<TokenView>, pos: int) -> nat {
    if pos <= tokens.len() {
        (tokens.len() - pos) as nat
    } else {
        0
    }
}

/// The expression that starts at `pos`, as far as it can be read with
/// operators that bind more tightly than `min_power`: a primary, and the
/// operators and operands that follow it.
///
/// The tree that comes out is spelled by the tokens from `pos` on, so the
/// first token behind it is the one at `pos` plus its `token_count`.
pub open spec fn parse_expression(tokens: Seq<TokenView>, pos: int, min_power: nat) -> Result<
    ExprView,
    ParseFault,
>
    decreases remaining(tokens, pos), 2nat,
{
    match parse_primary(tokens, pos) {
        Ok(primary) => parse_operators(tokens, pos + primary.token_count(), min_power, primary),
        Err(fault) => Err(fault),
    }
}

/// The primary at `pos`: a number, or an expression between parentheses.
pub open spec fn parse_primary(tokens: Seq<TokenView>, pos: int) -> Result<ExprView, ParseFault>
    decreases remaining(tokens, pos), 0nat,
{
    let first = token_at(tokens, pos);
    if first.kind == TokenKind::Number {
        Ok(ExprView::Literal { token: first })
    } else if first.kind == TokenKind::LeftParen {
        match parse_expression(tokens, pos + 1, 0) {
            Ok(inner) => {
                let close = pos + 1 + inner.token_count();
                if token_at(tokens, close).kind == TokenKind::RightParen {
                    Ok(ExprView::Grouping { expression: Box::new(inner) })
                } else {
                    Err(ParseFault { description: "expecting ')'"@, at: close })
                }
            },
            Err(fault) => Err(fault),
        }
    } else {
        Err(ParseFault { description: "no parselet found for this token"@, at: pos })
    }
}

/// What `left` grows into by the operators from `pos` on. An operator that
/// binds more tightly than `min_power` takes `left` as its left operand and
/// the expression behind it, read with the operator's right binding power,
/// as its right operand; the node is then grown further in the same way.
/// Any other token ends the expression.
pub open spec fn parse_operators(
    tokens: Seq<TokenView>,
    pos: int,
    min_power: nat,
    left: ExprView,
) -> Result<ExprView, ParseFault>
    decreases remaining(tokens, pos), 1nat,
{
    let operator = token_at(tokens, pos);
    if operator.kind.is_operator() && operator.kind.binding_power() > min_power {
        match parse_expression(tokens, pos + 1, operator.kind.right_binding_power()) {
            Ok(right) => parse_operators(
                tokens,
                pos + 1 + right.token_count(),
                min_power,
                ExprView::Binary { operator, left: Box::new(left), right: Box::new(right) },
            ),
            Err(fault) => Err(fault),
        }
    } else {
        Ok(left)
    }
}

/// What parsing `tokens` gives: the expression at their start, or the error
/// of the first fault.
pub open spec fn parse(tokens: Seq<TokenView>) -> Result<ExprView, ParseErrorView> {
    match parse_expression(tokens, 0, 0) {
        Ok(expr) => Ok(expr),
        Err(fault) => Err(fault.error(tokens)),
    }
}

/// A parser as a mathematical value: the tokens, and the number of them
/// that were read.
pub struct ParserView {
    pub tokens: Seq<TokenView>,
    pub current: nat,
}

/// The parser.
pub struct Parser {
    /// Tokens to parse.
    tokens: Vec<Token>,
    /// Index of current token.
    current: usize,
}

impl View for Parser {
    type V = ParserView;

    closed spec fn view(&self) -> ParserView {
        ParserView { tokens: token_views(self.tokens@), current: self.current as nat }
    }
}

/// What a parse has handed back, as a mathematical value.
pub open spec fn parse_result_view(result: Result<Expr, ParseError>) -> Result<
    ExprView,
    ParseErrorView,
> {
    match result {
        Ok(expr) => Ok(expr@),
        Err(error) => Err(error@),
    }
}

/// That `result` and the parser's place behind it are what `expected`
/// says, for a run that began at `start`: on success the tree, with the
/// parser behind its last token; on failure the error of the fault, with
/// the parser at the offending token.
pub open spec fn agrees(
    result: Result<Expr, ParseError>,
    after: ParserView,
    start: int,
    expected: Result<ExprView, ParseFault>,
) -> bool {
    match expected {
        Ok(expr) => parse_result_view(result) == Ok::<ExprView, ParseErrorView>(expr)
            && after.current == start + expr.token_count(),
        Err(fault) => parse_result_view(result) == Err::<ExprView, ParseErrorView>(
            fault.error(after.tokens),
        ) && after.current == fault.at,
    }
}

impl Parser {
    /// An end-of-input token stands at or behind the place of the parser,
    /// so the parser never runs out of tokens.
    pub open spec fn well_formed(&self) -> bool {
        exists|i: int|
            self@.current <= i < self@.tokens.len() && (#[trigger] self@.tokens[i]).kind
                == TokenKind::Eof
    }

    /// Make a new parser.
    pub fn new(tokens: Vec<Token>) -> (parser: Self)
        ensures
            parser@.tokens == token_views(tokens@),
            parser@.current == 0,
            tokens.len() > 0 && tokens@.last().kind == TokenKind::Eof ==> parser.well_formed(),
    {
        assert(tokens.len() > 0 ==> token_views(tokens@)[tokens.len() - 1] == tokens@.last()@);
        Parser { tokens, current: 0 }
    }

    /// Dispatch an initial parselet.
    fn get_initial_parselet(&self, token: &Token) -> (result: Result<InitialParselet, ParseError>)
        ensures
            match result {
                Ok(parselet) => parselet.fits(token.kind),
                Err(error) => token.kind != TokenKind::Number && token.kind
                    != TokenKind::LeftParen && error@ == (ParseErrorView {
                    description: "no parselet found for this token"@,
                    token: token@,
                }),
            },
    {
        if token.is_number() {
            Ok(InitialParselet::Number(NumberParselet::new()))
        } else {
            match token.kind {
                TokenKind::LeftParen => Ok(InitialParselet::Parenthesis(ParenthesisParselet::new())),
                _ => Err(ParseError::new("no parselet found for this token", token)),
            }
        }
    }

    /// Dispatch a consequent parselet.
    fn get_consequent_parselet(&self, token: &Token) -> (result: Option<OperatorParselet>)
        ensures
            match result {
                Some(parselet) => parselet.serves(token.kind),
                None => !token.kind.is_operator(),
            },
    {
        match token.kind {
            TokenKind::Plus => Some(OperatorParselet::new(TokenKind::Plus)),
            TokenKind::Minus => Some(OperatorParselet::new(TokenKind::Minus)),
            TokenKind::Star => Some(OperatorParselet::new(TokenKind::Star)),
            TokenKind::Slash => Some(OperatorParselet::new(TokenKind::Slash)),
            TokenKind::Cap => Some(OperatorParselet::new(TokenKind::Cap)),
            _ => None,
        }
    }

    /// Advance the parser retrieving a new token.
    fn advance(&mut self) -> (token: &Token)
        requires
            old(self).well_formed(),
            token_at(old(self)@.tokens, old(self)@.current as int).kind != TokenKind::Eof,
        ensures
            final(self).well_formed(),
            final(self)@.tokens == old(self)@.tokens,
            final(self)@.current == old(self)@.current + 1,
            token@ == token_at(old(self)@.tokens, old(self)@.current as int),
    {
        assert(self.current < self.tokens.len());
        let token = &self.tokens[self.current];
        self.current += 1;

        token
    }

    /// Peek the next token without advancing the parser.
    fn peek(&self) -> (token: &Token)
        requires
            self.well_formed(),
        ensures
            token@ == token_at(self@.tokens, self@.current as int),
    {
        &self.tokens[self.current]
    }

    /// Parse the tokens into an expression.
    ///
    /// Reads the expression that starts where the parser stands. Hands back
    /// its tree, or the error of the first token that cannot stand where it
    /// does. On a new parser that is the parse of its tokens. A tree that
    /// comes back holds numbers and operators only, is spelled out by the
    /// tokens that were read, and groups its operators as they ask.
    pub fn parse(&mut self) -> (result: Result<Expr, ParseError>)
        requires
            old(self).well_formed(),
        ensures
            final(self).well_formed(),
            final(self)@.tokens == old(self)@.tokens,
            agrees(
                result,
                final(self)@,
                old(self)@.current as int,
                parse_expression(old(self)@.tokens, old(self)@.current as int, 0),
            ),
            old(self)@.current == 0 ==> parse_result_view(result) == parse(old(self)@.tokens),
            result matches Ok(expr) ==> expr@.well_formed(),
            result matches Ok(expr) ==> is_reading(
                expr@,
                old(self)@.tokens,
                old(self)@.current as int,
                0,
            ),
    {
        proof {
            lemma_expression_reading(self@.tokens, self@.current as int, 0);
        }
        self.actually_parse(0)
    }

    /// The actual parsing function.
    fn actually_parse(&mut self, current_binding_power: u8) -> (result: Result<Expr, ParseError>)
        requires
            old(self).well_formed(),
        ensures
            final(self).well_formed(),
            final(self)@.tokens == old(self)@.tokens,
            agrees(
                result,
                final(self)@,
                old(self)@.current as int,
                parse_expression(
                    old(self)@.tokens,
                    old(self)@.current as int,
                    current_binding_power as nat,
                ),
            ),
        decreases remaining(old(self)@.tokens, old(self)@.current as int), 2nat,
    {
        let first_token = self.peek();
        let initial_parselet = self.get_initial_parselet(first_token)?;
        let mut left_expr = initial_parselet.parse(self)?;

        loop
            invariant
                self.well_formed(),
                self@.tokens == old(self)@.tokens,
                self@.current == old(self)@.current + left_expr@.token_count(),
                parse_expression(
                    self@.tokens,
                    old(self)@.current as int,
                    current_binding_power as nat,
                ) == parse_operators(
                    self@.tokens,
                    self@.current as int,
                    current_binding_power as nat,
                    left_expr@,
                ),
            ensures
                self.well_formed(),
                self@.tokens == old(self)@.tokens,
                self@.current == old(self)@.current + left_expr@.token_count(),
                parse_expression(
                    self@.tokens,
                    old(self)@.current as int,
                    current_binding_power as nat,
                ) == Ok::<ExprView, ParseFault>(left_expr@),
            decreases remaining(self@.tokens, self@.current as int),
        {
            let current_token = self.peek().clone();
            if let TokenKind::Eof = current_token.kind {
                break ;
            }
            let consequent_parselet = match self.get_consequent_parselet(&current_token) {
                Some(parselet) => parselet,
                None => break ,
            };
            if consequent_parselet.binding_power() <= current_binding_power {
                break ;
            }
            self.advance();
            left_expr = consequent_parselet.parse(self, current_token, left_expr)?;
        }

        Ok(left_expr)
    }
}

/// The parselet of a primary: of a number, or of a parenthesis.
enum InitialParselet {
    Number(NumberParselet),
    Parenthesis(ParenthesisParselet),
}

impl InitialParselet {
    /// Whether this is the parselet for a primary that starts with a token
    /// of kind `kind`.
    spec fn fits(self, kind: TokenKind) -> bool {
        match self {
            InitialParselet::Number(_) => kind == TokenKind::Number,
            InitialParselet::Parenthesis(_) => kind == TokenKind::LeftParen,
        }
    }

    /// Parse the primary where the parser stands.
    fn parse(&self, parser: &mut Parser) -> (result: Result<Expr, ParseError>)
        requires
            old(parser).well_formed(),
            self.fits(token_at(old(parser)@.tokens, old(parser)@.current as int).kind),
        ensures
            final(parser).well_formed(),
            final(parser)@.tokens == old(parser)@.tokens,
            agrees(
                result,
                final(parser)@,
                old(parser)@.current as int,
                parse_primary(old(parser)@.tokens, old(parser)@.current as int),
            ),
        decreases remaining(old(parser)@.tokens, old(parser)@.current as int), 1nat,
    {
        match self {
            InitialParselet::Number(parselet) => parselet.parse(parser),
            InitialParselet::Parenthesis(parselet) => parselet.parse(parser),
        }
    }
}

/// The parselet of a number.
pub struct NumberParselet {}

impl NumberParselet {
    /// Make a new number parselet.
    pub fn new() -> Self {
        NumberParselet {  }
    }

    /// Read the number where the parser stands.
    pub fn parse(&self, parser: &mut Parser) -> (result: Result<Expr, ParseError>)
        requires
            old(parser).well_formed(),
            token_at(old(parser)@.tokens, old(parser)@.current as int).kind == TokenKind::Number,
        ensures
            final(parser).well_formed(),
            final(parser)@.tokens == old(parser)@.tokens,
            agrees(
                result,
                final(parser)@,
                old(parser)@.current as int,
                parse_primary(old(parser)@.tokens, old(parser)@.current as int),
            ),
    {
        let token = parser.advance();
        Ok(Expr::Literal(Literal::new(token.clone())))
    }
}

/// The parselet of a group between parentheses.
pub struct ParenthesisParselet {}

impl ParenthesisParselet {
    /// Make a new parenthesis parselet.
    pub fn new() -> Self {
        ParenthesisParselet {  }
    }

    /// Read the group that opens where the parser stands: an opening
    /// parenthesis, an expression, and a closing parenthesis.
    pub fn parse(&self, parser: &mut Parser) -> (result: Result<Expr, ParseError>)
        requires
            old(parser).well_formed(),
            token_at(old(parser)@.tokens, old(parser)@.current as int).kind
                == TokenKind::LeftParen,
        ensures
            final(parser).well_formed(),
            final(parser)@.tokens == old(parser)@.tokens,
            agrees(
                result,
                final(parser)@,
                old(parser)@.current as int,
                parse_primary(old(parser)@.tokens, old(parser)@.current as int),
            ),
        decreases remaining(old(parser)@.tokens, old(parser)@.current as int), 0nat,
    {
        // Consume the '('.
        parser.advance();

        let expr = parser.actually_parse(0)?;

        let next_token = parser.peek();
        if let TokenKind::RightParen = next_token.kind {
            parser.advance();
            Ok(Expr::Grouping(Grouping::new(expr)))
        } else {
            Err(ParseError::new("expecting ')'", next_token))
        }
    }
}

/// Operator parselet.
pub struct OperatorParselet {
    /// Binding power of the operator.
    binding_power: u8,
    /// True if the operator is left associative.
    left_associative: bool,
}

impl OperatorParselet {
    /// The binding power that the parselet holds.
    pub closed spec fn power(self) -> nat {
        self.binding_power as nat
    }

    /// Whether the parselet groups from the left.
    pub closed spec fn groups_left(self) -> bool {
        self.left_associative
    }

    /// Whether this is the parselet of the operator `kind`.
    pub open spec fn serves(self, kind: TokenKind) -> bool {
        kind.is_operator() && self.power() == kind.binding_power() && self.groups_left()
            == kind.is_left_associative()
    }

    /// Make a new operator parselet from an operator.
    pub fn new(operator: TokenKind) -> (parselet: Self)
        requires
            operator.is_operator(),
        ensures
            parselet.serves(operator),
    {
        match operator {
            TokenKind::Plus | TokenKind::Minus => OperatorParselet {
                binding_power: 10,
                left_associative: true,
            },
            TokenKind::Star | TokenKind::Slash => OperatorParselet {
                binding_power: 20,
                left_associative: true,
            },
            _ => OperatorParselet { binding_power: 30, left_associative: false },
        }
    }

    /// Return the operator's binding power.
    pub fn binding_power(&self) -> (power: u8)
        ensures
            power == self.power(),
    {
        self.binding_power
    }

    /// Read the right operand where the parser stands, behind the operator
    /// `current_token`, and join it with `left_expr` under that operator.
    pub fn parse(&self, parser: &mut Parser, current_token: Token, left_expr: Expr) -> (result:
        Result<Expr, ParseError>)
        requires
            old(parser).well_formed(),
            self.serves(current_token.kind),
        ensures
            final(parser).well_formed(),
            final(parser)@.tokens == old(parser)@.tokens,
            match parse_expression(
                old(parser)@.tokens,
                old(parser)@.current as int,
                current_token.kind.right_binding_power(),
            ) {
                Ok(right) => parse_result_view(result) == Ok::<ExprView, ParseErrorView>(
                    ExprView::Binary {
                        operator: current_token@,
                        left: Box::new(left_expr@),
                        right: Box::new(right),
                    },
                ) && final(parser)@.current == old(parser)@.current + right.token_count(),
                Err(fault) => parse_result_view(result) == Err::<ExprView, ParseErrorView>(
                    fault.error(old(parser)@.tokens),
                ) && final(parser)@.current == fault.at,
            },
        decreases remaining(old(parser)@.tokens, old(parser)@.current as int), 3nat,
    {
        let binding_power = if self.left_associative {
            self.binding_power
        } else {
            self.binding_power - 1
        };
        let right_expr = parser.actually_parse(binding_power)?;

        Ok(Expr::Binary(Binary::new(current_token, left_expr, right_expr)))
    }
}

impl ExprView {
    /// Whether the tokens from `pos` on spell the tree out: a literal is
    /// its token, a grouping stands between an opening and a closing
    /// parenthesis, and a binary node is its left operand, its operator and
    /// its right operand, one behind the other.
    pub open spec fn spelled_by(self, tokens: Seq<TokenView>, pos: int) -> bool
        decreases self,
    {
        match self {
            ExprView::Binary { operator, left, right } => {
                let middle = pos + left.token_count();
                &&& left.spelled_by(tokens, pos)
                &&& middle < tokens.len()
                &&& tokens[middle] == operator
                &&& right.spelled_by(tokens, middle + 1)
            },
            ExprView::Literal { token } => 0 <= pos < tokens.len() && tokens[pos] == token,
            ExprView::Grouping { expression } => {
                let close = pos + 1 + expression.token_count();
                &&& 0 <= pos
                &&& close < tokens.len()
                &&& tokens[pos].kind == TokenKind::LeftParen
                &&& expression.spelled_by(tokens, pos + 1)
                &&& tokens[close].kind == TokenKind::RightParen
            },
        }
    }

    /// Whether the tree groups its operators as their binding powers and
    /// associativities ask. A binary node that stands bare, outside any
    /// parentheses, as the left operand of an operator binds at least as
    /// tightly as that operator, and more tightly if it groups from the
    /// right; one that stands as the right operand binds more tightly than
    /// the operator, or as tightly if the operator groups from the right.
    pub open spec fn respects_precedence(self) -> bool
        decreases self,
    {
        match self {
            ExprView::Binary { operator, left, right } => {
                &&& left.respects_precedence()
                &&& right.respects_precedence()
                &&& left.binds_outward(operator.kind.binding_power())
                &&& right.binds_above(operator.kind.right_binding_power())
            },
            ExprView::Literal { token } => true,
            ExprView::Grouping { expression } => expression.respects_precedence(),
        }
    }

    /// A bare binary node binds more tightly than `power`; any other tree
    /// does by itself.
    pub open spec fn binds_above(self, power: nat) -> bool {
        self matches ExprView::Binary { operator, .. } ==> operator.kind.binding_power() > power
    }

    /// The right operand of a bare binary node was read with a binding
    /// power of at least `power`, so an operator of that power behind it
    /// does not reach into it; any other tree is closed by itself.
    pub open spec fn binds_outward(self, power: nat) -> bool {
        self matches ExprView::Binary { operator, .. } ==> operator.kind.right_binding_power()
            >= power
    }
}

/// The binding power of the operator at `pos`; zero if no operator stands
/// there.
pub open spec fn power_at(tokens: Seq<TokenView>, pos: int) -> nat {
    token_at(tokens, pos).kind.binding_power()
}

/// What holds of a tree that was read from `start` on with operators that
/// bind more tightly than `min_power`: it is well formed, the tokens from
/// `start` on spell it out, it groups its operators as they ask, and it
/// ends where the next token is no operator that would have gone on with
/// it.
pub open spec fn is_reading(
    expr: ExprView,
    tokens: Seq<TokenView>,
    start: int,
    min_power: nat,
) -> bool {
    let end = start + expr.token_count();
    &&& expr.well_formed()
    &&& expr.spelled_by(tokens, start)
    &&& expr.respects_precedence()
    &&& expr.binds_above(min_power)
    &&& expr.binds_outward(power_at(tokens, end))
    &&& power_at(tokens, end) <= min_power
}

/// A primary that parsing gives is a reading from `pos`, whatever the
/// binding power asked for.
proof fn lemma_primary_reading(tokens: Seq<TokenView>, pos: int)
    ensures
        parse_primary(tokens, pos) matches Ok(expr) ==> {
            &&& expr.well_formed()
            &&& expr.spelled_by(tokens, pos)
            &&& expr.respects_precedence()
            &&& !(expr is Binary)
        },
    decreases remaining(tokens, pos), 0nat,
{
    if token_at(tokens, pos).kind == TokenKind::LeftParen {
        lemma_expression_reading(tokens, pos + 1, 0);
    }
}

/// Growing a tree by the operators behind it keeps it a reading.
proof fn lemma_operators_reading(
    tokens: Seq<TokenView>,
    start: int,
    pos: int,
    min_power: nat,
    left: ExprView,
)
    requires
        pos == start + left.token_count(),
        left.well_formed(),
        left.spelled_by(tokens, start),
        left.respects_precedence(),
        left.binds_above(min_power),
        left.binds_outward(power_at(tokens, pos)),
    ensures
        parse_operators(tokens, pos, min_power, left) matches Ok(expr) ==> is_reading(
            expr,
            tokens,
            start,
            min_power,
        ),
    decreases remaining(tokens, pos), 1nat,
{
    let operator = token_at(tokens, pos);
    if operator.kind.is_operator() && operator.kind.binding_power() > min_power {
        let right_power = operator.kind.right_binding_power();
        lemma_expression_reading(tokens, pos + 1, right_power);
        if let Ok(right) = parse_expression(tokens, pos + 1, right_power) {
            let grown = ExprView::Binary { operator, left: Box::new(left), right: Box::new(right) };
            lemma_operators_reading(
                tokens,
                start,
                pos + 1 + right.token_count(),
                min_power,
                grown,
            );
        }
    }
}

/// An expression that parsing gives is a reading from `pos`: it is well
/// formed, the tokens from `pos` on spell it out, it groups its operators
/// as they ask, and it ends where no operator goes on with it.
pub proof fn lemma_expression_reading(tokens: Seq<TokenView>, pos: int, min_power: nat)
    ensures
        parse_expression(tokens, pos, min_power) matches Ok(expr) ==> is_reading(
            expr,
            tokens,
            pos,
            min_power,
        ),
    decreases remaining(tokens, pos), 2nat,
{
    lemma_primary_reading(tokens, pos);
    if let Ok(primary) = parse_primary(tokens, pos) {
        lemma_operators_reading(tokens, pos, pos + primary.token_count(), min_power, primary);
    }
}

/// The tokens that spell a tree out are tokens of the sequence.
pub proof fn lemma_spelled_within(expr: ExprView, tokens: Seq<TokenView>, pos: int)
    requires
        expr.spelled_by(tokens, pos),
    ensures
        0 <= pos,
        pos + expr.token_count() <= tokens.len(),
        expr.token_count() >= 1,
    decreases expr,
{
    match expr {
        ExprView::Binary { operator, left, right } => {
            lemma_spelled_within(*left, tokens, pos);
            lemma_spelled_within(*right, tokens, pos + left.token_count() + 1);
        },
        ExprView::Literal { token } => {},
        ExprView::Grouping { expression } => {
            lemma_spelled_within(*expression, tokens, pos + 1);
        },
    }
}

/// A tree that is spelled out from `start` on, groups its operators as they
/// ask and binds more tightly than `min_power` is what the parser holds
/// when it stands behind the tree's last token.
proof fn lemma_reading_is_reached(
    expr: ExprView,
    tokens: Seq<TokenView>,
    start: int,
    min_power: nat,
)
    requires
        expr.well_formed(),
        expr.spelled_by(tokens, start),
        expr.respects_precedence(),
        expr.binds_above(min_power),
        expr.binds_outward(power_at(tokens, start + expr.token_count())),
    ensures
        parse_expression(tokens, start, min_power) == parse_operators(
            tokens,
            start + expr.token_count(),
            min_power,
            expr,
        ),
    decreases expr,
{
    lemma_spelled_within(expr, tokens, start);
    match expr {
        ExprView::Binary { operator, left, right } => {
            let middle = start + left.token_count();
            let right_power = operator.kind.right_binding_power();
            lemma_spelled_within(*left, tokens, start);
            lemma_spelled_within(*right, tokens, middle + 1);
            lemma_reading_is_reached(*left, tokens, start, min_power);
            lemma_reading_is_reached(*right, tokens, middle + 1, right_power);
        },
        ExprView::Literal { token } => {},
        ExprView::Grouping { expression } => {
            lemma_spelled_within(*expression, tokens, start + 1);
            assert(expression.binds_above(0)) by {
                assert(expression.well_formed());
                if let ExprView::Binary { operator, .. } = *expression {
                    assert(operator.kind.is_operator());
                }
            }
            lemma_reading_is_reached(*expression, tokens, start + 1, 0);
        },
    }
}

/// The readings are exactly what parsing gives: a tree comes out of the
/// tokens from `start` on, read with operators that bind more tightly than
/// `min_power`, if and only if it is well formed, spelled out by those
/// tokens, grouped as its operators ask, and ends where no operator goes on
/// with it. So no other tree can be read there.
pub proof fn lemma_parse_iff_reading(
    expr: ExprView,
    tokens: Seq<TokenView>,
    start: int,
    min_power: nat,
)
    ensures
        parse_expression(tokens, start, min_power) == Ok::<ExprView, ParseFault>(expr)
            <==> is_reading(expr, tokens, start, min_power),
{
    lemma_expression_reading(tokens, start, min_power);
    if is_reading(expr, tokens, start, min_power) {
        lemma_reading_is_reached(expr, tokens, start, min_power);
    }
}

impl ParseFault {
    /// Whether the fault is one of the two that parsing knows, at a token
    /// that it is a fault for: a token that starts no primary, or a token
    /// that is no closing parenthesis where a group has to close.
    pub open spec fn names_offender(self, tokens: Seq<TokenView>) -> bool {
        let kind = token_at(tokens, self.at).kind;
        ||| self.description == "no parselet found for this token"@ && kind != TokenKind::Number
            && kind != TokenKind::LeftParen
        ||| self.description == "expecting ')'"@ && kind != TokenKind::RightParen
    }
}

/// A fault of a primary lies at or behind `pos` and names its offender.
proof fn lemma_primary_fault(tokens: Seq<TokenView>, pos: int)
    ensures
        parse_primary(tokens, pos) matches Err(fault) ==> pos <= fault.at && fault.names_offender(
            tokens,
        ),
    decreases remaining(tokens, pos), 0nat,
{
    if token_at(tokens, pos).kind == TokenKind::LeftParen {
        lemma_expression_fault(tokens, pos + 1, 0);
    }
}

/// A fault among the operators lies behind `pos` and names its offender.
proof fn lemma_operators_fault(tokens: Seq<TokenView>, pos: int, min_power: nat, left: ExprView)
    ensures
        parse_operators(tokens, pos, min_power, left) matches Err(fault) ==> pos < fault.at
            && fault.names_offender(tokens),
    decreases remaining(tokens, pos), 1nat,
{
    let operator = token_at(tokens, pos);
    if operator.kind.is_operator() && operator.kind.binding_power() > min_power {
        let right_power = operator.kind.right_binding_power();
        lemma_expression_fault(tokens, pos + 1, right_power);
        if let Ok(right) = parse_expression(tokens, pos + 1, right_power) {
            let grown = ExprView::Binary { operator, left: Box::new(left), right: Box::new(right) };
            lemma_operators_fault(tokens, pos + 1 + right.token_count(), min_power, grown);
        }
    }
}

/// Where parsing fails, it fails at a token at or behind `pos` that cannot
/// stand where it does: one that starts no primary where a primary is due,
/// or one that is no closing parenthesis where a group has to close.
pub proof fn lemma_expression_fault(tokens: Seq<TokenView>, pos: int, min_power: nat)
    ensures
        parse_expression(tokens, pos, min_power) matches Err(fault) ==> pos <= fault.at
            && fault.names_offender(tokens),
    decreases remaining(tokens, pos), 2nat,
{
    lemma_primary_fault(tokens, pos);
    if let Ok(primary) = parse_primary(tokens, pos) {
        lemma_operators_fault(tokens, pos + primary.token_count(), min_power, primary);
    }
}

/// No tree that parsing gives holds a parenthesis or an end-of-input token:
/// every literal in it is a number and every binary node has one of the
/// five operators.
pub proof fn lemma_parsed_tree_is_well_formed(tokens: Seq<TokenView>)
    ensures
        parse(tokens) matches Ok(expr) ==> expr.well_formed(),
{
    lemma_expression_reading(tokens, 0, 0);
}

} // verus!
