use prett::expr::{walk_expr, Binary, Expr, ExprVisitor, Grouping, Literal};
use prett::pretty_printer::{render, PrettyPrinter};
use prett::token::{Token, TokenKind};

fn number(lexeme: &str) -> Expr {
    Expr::Literal(Literal::new(Token::new(TokenKind::Number, lexeme.to_string())))
}

fn binary(kind: TokenKind, lexeme: &str, left: Expr, right: Expr) -> Expr {
    Expr::Binary(Binary::new(Token::new(kind, lexeme.to_string()), left, right))
}

fn group(expr: Expr) -> Expr {
    Expr::Grouping(Grouping::new(expr))
}

#[test]
fn new_printer_holds_no_text() {
    assert_eq!(PrettyPrinter::new().pretty_text, "");
}

#[test]
fn node_constructors_keep_their_parts() {
    let node = Binary::new(Token::new(TokenKind::Slash, "/".to_string()), number("8"), number("2"));
    assert_eq!(node.operator.kind, TokenKind::Slash);
    assert_eq!(render(&node.left), "8");
    assert_eq!(render(&node.right), "2");
    let literal = Literal::new(Token::new(TokenKind::Number, "8".to_string()));
    assert_eq!(literal.token.lexeme, "8");
    let grouping = Grouping::new(number("9"));
    assert_eq!(render(&grouping.expression), "9");
}

#[test]
fn literal_renders_as_it_was_written() {
    assert_eq!(render(&number("2.50")), "2.50");
    assert_eq!(render(&number("007")), "007");
}

#[test]
fn binary_renders_operator_first_between_parentheses() {
    assert_eq!(render(&binary(TokenKind::Plus, "+", number("1"), number("2"))), "(+ 1 2)");
}

#[test]
fn nested_binaries_render_nested() {
    let tree = binary(
        TokenKind::Minus,
        "-",
        binary(TokenKind::Star, "*", number("1"), number("2")),
        binary(TokenKind::Cap, "^", number("3"), number("4")),
    );
    assert_eq!(render(&tree), "(- (* 1 2) (^ 3 4))");
}

#[test]
fn grouping_leaves_no_mark() {
    assert_eq!(render(&group(number("7"))), "7");
    assert_eq!(render(&group(group(number("7")))), "7");
    let tree = binary(
        TokenKind::Star,
        "*",
        group(binary(TokenKind::Plus, "+", number("2"), number("3"))),
        number("4"),
    );
    assert_eq!(render(&tree), "(* (+ 2 3) 4)");
}

#[test]
fn operator_is_rendered_by_its_lexeme() {
    assert_eq!(render(&binary(TokenKind::Plus, "plus", number("1"), number("2"))), "(plus 1 2)");
}

#[test]
fn walk_writes_behind_the_text_that_is_there() {
    let mut printer = PrettyPrinter::new();
    walk_expr(&mut printer, &number("1"));
    walk_expr(&mut printer, &binary(TokenKind::Slash, "/", number("2"), number("3")));
    walk_expr(&mut printer, &group(number("4")));
    assert_eq!(printer.pretty_text, "1(/ 2 3)4");
}

#[test]
fn each_visit_writes_its_node() {
    let mut printer = PrettyPrinter::new();
    printer.visit_literal(&Literal::new(Token::new(TokenKind::Number, "5".to_string())));
    printer.visit_grouping(&Grouping::new(number("6")));
    printer.visit_binary(&Binary::new(
        Token::new(TokenKind::Cap, "^".to_string()),
        number("7"),
        number("8"),
    ));
    assert_eq!(printer.pretty_text, "56(^ 7 8)");
}
