//! Printing of expression trees in fully parenthesised prefix notation.

use vstd::prelude::*;
use vstd::string::*;
use crate::expr::{walk_expr, Binary, Expr, ExprView, ExprVisitor, Grouping, Literal};

verus! {

impl ExprView {
    /// The text of the tree in prefix notation. A literal is its lexeme as
    /// it was written; a binary node is an opening parenthesis, the
    /// operator's lexeme, the two operands, each after one space, and a
    /// closing parenthesis; a grouping is the text of what it encloses.
    pub open spec fn rendered(self) -> Seq<char>
        decreases self,
    {
        match self {
            ExprView::Binary { operator, left, right } => seq!['('] + operator.lexeme + seq![' ']
                + left.rendered() + seq![' '] + right.rendered() + seq![')'],
            ExprView::Literal { token } => token.lexeme,
            ExprView::Grouping { expression } => expression.rendered(),
        }
    }
}

/// A visitor that writes the prefix notation of what it visits behind the
/// text that it already holds.
pub struct PrettyPrinter {
    pub pretty_text: String,
}

impl PrettyPrinter {
    /// Whether `after` holds the text of `before` and behind it the prefix
    /// notation of `expr`.
    pub open spec fn has_written(before: Self, expr: ExprView, after: Self) -> bool {
        after.pretty_text@ == before.pretty_text@ + expr.rendered()
    }

    /// Make a new, empty, pretty printer.
    pub fn new() -> (printer: Self)
        ensures
            printer.pretty_text@ == Seq::<char>::empty(),
    {
        PrettyPrinter { pretty_text: String::new() }
    }

    /// Write the prefix notation of `expr` behind the text.
    ///
    /// The visits below descend through this function and not through
    /// `walk_expr`: the recursion then stays among the printer's own
    /// functions, where its termination is checked.
    fn write_expr(&mut self, expr: &Expr)
        ensures
            final(self).pretty_text@ == old(self).pretty_text@ + expr@.rendered(),
        decreases expr,
    {
        match expr {
            Expr::Binary(binary) => self.write_binary(binary),
            Expr::Literal(literal) => self.write_literal(literal),
            Expr::Grouping(grouping) => self.write_expr(&grouping.expression),
        }
    }

    /// Write a binary node: the operator first, then the operands, all
    /// between parentheses.
    fn write_binary(&mut self, expr: &Binary)
        ensures
            final(self).pretty_text@ == old(self).pretty_text@ + expr@.rendered(),
        decreases expr,
    {
        proof {
            reveal_strlit("(");
            reveal_strlit(" ");
            reveal_strlit(")");
        }
        self.pretty_text.append("(");
        self.pretty_text.append(expr.operator.lexeme.as_str());
        self.pretty_text.append(" ");
        self.write_expr(&expr.left);
        self.pretty_text.append(" ");
        self.write_expr(&expr.right);
        self.pretty_text.append(")");
    }

    /// Write a literal: its lexeme.
    fn write_literal(&mut self, expr: &Literal)
        ensures
            final(self).pretty_text@ == old(self).pretty_text@ + expr@.rendered(),
    {
        self.pretty_text.append(expr.token.lexeme.as_str());
    }
}

impl ExprVisitor for PrettyPrinter {
    open spec fn binary_visit(before: Self, expr: ExprView, after: Self) -> bool {
        Self::has_written(before, expr, after)
    }

    open spec fn literal_visit(before: Self, expr: ExprView, after: Self) -> bool {
        Self::has_written(before, expr, after)
    }

    open spec fn grouping_visit(before: Self, expr: ExprView, after: Self) -> bool {
        Self::has_written(before, expr, after)
    }

    fn visit_binary(&mut self, expr: &Binary) {
        self.write_binary(expr);
    }

    fn visit_literal(&mut self, expr: &Literal) {
        self.write_literal(expr);
    }

    fn visit_grouping(&mut self, expr: &Grouping) {
        self.write_expr(&expr.expression);
    }
}

/// The prefix notation of `expr`.
pub fn render(expr: &Expr) -> (text: String)
    ensures
        text@ == expr@.rendered(),
{
    let mut printer = PrettyPrinter::new();
    walk_expr(&mut printer, expr);
    printer.pretty_text
}

} // verus!
