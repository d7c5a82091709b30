//! Expression trees, their mathematical model, and the visitor that walks them.

use vstd::prelude::*;
use crate::token::{Token, TokenKind, TokenView};

verus! {

/// An expression tree as a mathematical value.
pub enum ExprView {
    /// An operator applied to two operands.
    Binary { operator: TokenView, left: Box<ExprView>, right: Box<ExprView> },
    /// A number.
    Literal { token: TokenView },
    /// An expression that was written between parentheses.
    Grouping { expression: Box<ExprView> },
}

impl ExprView {
    /// The number of tokens that spell the tree out in source order: one for
    /// a literal, one for an operator beside those of its operands, and two
    /// parentheses around a group.
    pub open spec fn token_count(self) -> nat
        decreases self,
    {
        match self {
            ExprView::Binary { operator, left, right } => left.token_count() + 1
                + right.token_count(),
            ExprView::Literal { token } => 1,
            ExprView::Grouping { expression } => expression.token_count() + 2,
        }
    }

    /// Every literal holds a number token and every binary node an operator
    /// token, so no parenthesis and no end-of-input token occurs in the tree.
    pub open spec fn well_formed(self) -> bool
        decreases self,
    {
        match self {
            ExprView::Binary { operator, left, right } => operator.kind.is_operator()
                && left.well_formed() && right.well_formed(),
            ExprView::Literal { token } => token.kind == TokenKind::Number,
            ExprView::Grouping { expression } => expression.well_formed(),
        }
    }
}

/// Visitor for expressions.
///
/// For each shape of node a visitor has a method that visits such a node,
/// and a relation that says what the visit does to the visitor. A relation
/// that a visitor does not state holds of every visit, and so says nothing.
pub trait ExprVisitor: Sized {
    /// Whether a visit of the binary node `expr` may take the visitor from
    /// `before` to `after`.
    open spec fn binary_visit(before: Self, expr: ExprView, after: Self) -> bool {
        true
    }

    /// Whether a visit of the literal `expr` may take the visitor from
    /// `before` to `after`.
    open spec fn literal_visit(before: Self, expr: ExprView, after: Self) -> bool {
        true
    }

    /// Whether a visit of the grouping `expr` may take the visitor from
    /// `before` to `after`.
    open spec fn grouping_visit(before: Self, expr: ExprView, after: Self) -> bool {
        true
    }

    /// Visit a binary node.
    fn visit_binary(&mut self, expr: &Binary)
        ensures
            Self::binary_visit(*old(self), expr@, *final(self)),
    ;

    /// Visit a literal.
    fn visit_literal(&mut self, expr: &Literal)
        ensures
            Self::literal_visit(*old(self), expr@, *final(self)),
    ;

    /// Visit a grouping.
    fn visit_grouping(&mut self, expr: &Grouping)
        ensures
            Self::grouping_visit(*old(self), expr@, *final(self)),
    ;
}

/// An expression.
#[derive(Debug)]
pub enum Expr {
    Binary(Binary),
    Literal(Literal),
    Grouping(Grouping),
}

/// A binary expression.
#[derive(Debug)]
pub struct Binary {
    pub operator: Token,
    pub left: Box<Expr>,
    pub right: Box<Expr>,
}

/// A literal.
#[derive(Debug)]
pub struct Literal {
    pub token: Token,
}

/// A grouping (i.e. an expression between parenthesis).
#[derive(Debug)]
pub struct Grouping {
    pub expression: Box<Expr>,
}

impl Expr {
    /// The tree as a mathematical value.
    pub open spec fn model(self) -> ExprView
        decreases self,
    {
        match self {
            Expr::Binary(binary) => ExprView::Binary {
                operator: binary.operator@,
                left: Box::new(binary.left.model()),
                right: Box::new(binary.right.model()),
            },
            Expr::Literal(literal) => ExprView::Literal { token: literal.token@ },
            Expr::Grouping(grouping) => ExprView::Grouping {
                expression: Box::new(grouping.expression.model()),
            },
        }
    }
}

impl View for Expr {
    type V = ExprView;

    open spec fn view(&self) -> ExprView {
        self.model()
    }
}

impl View for Binary {
    type V = ExprView;

    open spec fn view(&self) -> ExprView {
        ExprView::Binary {
            operator: self.operator@,
            left: Box::new(self.left.model()),
            right: Box::new(self.right.model()),
        }
    }
}

impl View for Literal {
    type V = ExprView;

    open spec fn view(&self) -> ExprView {
        ExprView::Literal { token: self.token@ }
    }
}

impl View for Grouping {
    type V = ExprView;

    open spec fn view(&self) -> ExprView {
        ExprView::Grouping { expression: Box::new(self.expression.model()) }
    }
}

/// Whether a walk over `expr` may take a visitor from `before` to `after`:
/// whether the one visit that fits the shape of `expr` may.
pub open spec fn walk<V: ExprVisitor>(before: V, expr: ExprView, after: V) -> bool {
    match expr {
        ExprView::Binary { .. } => V::binary_visit(before, expr, after),
        ExprView::Literal { .. } => V::literal_visit(before, expr, after),
        ExprView::Grouping { .. } => V::grouping_visit(before, expr, after),
    }
}

/// Hand `expr` to the method of `visitor` that is meant for its shape.
pub fn walk_expr<V: ExprVisitor>(visitor: &mut V, expr: &Expr)
    ensures
        walk(*old(visitor), expr@, *final(visitor)),
{
    match expr {
        Expr::Binary(expr) => visitor.visit_binary(expr),
        Expr::Literal(expr) => visitor.visit_literal(expr),
        Expr::Grouping(expr) => visitor.visit_grouping(expr),
    }
}

impl Binary {
    /// Create a binary expression from an operator and two branches.
    pub fn new(operator: Token, left: Expr, right: Expr) -> (binary: Self)
        ensures
            binary.operator == operator,
            *binary.left == left,
            *binary.right == right,
    {
        Binary { operator, left: Box::new(left), right: Box::new(right) }
    }
}

impl Literal {
    /// Make a new literal from a Token.
    pub fn new(token: Token) -> (literal: Self)
        ensures
            literal.token == token,
    {
        Literal { token }
    }
}

impl Grouping {
    /// Make a new grouping from an expression.
    pub fn new(expr: Expr) -> (grouping: Self)
        ensures
            *grouping.expression == expr,
    {
        Grouping { expression: Box::new(expr) }
    }
}

} // verus!
