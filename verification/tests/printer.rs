use lang::ast::ast_printer::AstPrinter;
use lang::ast::expression::{Binary, Expr, Grouping, Literal, Unary, Visitor};
use lang::lexical_analysis::{LiteralValue, Token, TokenType};

fn number(numeral: &str) -> Expr {
    Expr::Literal(Literal { value: LiteralValue::Number(String::from(numeral)) })
}

fn operator(token_type: TokenType, lexeme: &str) -> Token {
    Token { token_type, lexeme: String::from(lexeme), literal: LiteralValue::Nil, line: 1 }
}

#[test]
fn visit_literal() {
    let printer = AstPrinter {};
    assert_eq!(printer.visit_literal_expr(&Literal { value: LiteralValue::Nil }), "nil");
    assert_eq!(printer.visit_literal_expr(&Literal { value: LiteralValue::Bool(true) }), "true");
    assert_eq!(printer.visit_literal_expr(&Literal { value: LiteralValue::Bool(false) }), "false");
    assert_eq!(
        printer.visit_literal_expr(&Literal { value: LiteralValue::Number(String::from("3.14")) }),
        "3.14"
    );
    assert_eq!(
        printer.visit_literal_expr(&Literal { value: LiteralValue::String(String::from("")) }),
        ""
    );
}

#[test]
fn visit_unary() {
    let node = Unary { operator: operator(TokenType::Bang, "!"), right: Box::new(number("1")) };
    assert_eq!(AstPrinter {}.visit_unary_expr(&node), "(! 1)");
}

#[test]
fn visit_binary() {
    let node = Binary {
        left: Box::new(number("1")),
        operator: operator(TokenType::EqualEqual, "=="),
        right: Box::new(number("2")),
    };
    assert_eq!(AstPrinter {}.visit_binary_expr(&node), "(== 1 2)");
}

#[test]
fn visit_grouping() {
    let node = Grouping { expression: Box::new(number("1")) };
    assert_eq!(AstPrinter {}.visit_grouping_expr(&node), "(group 1)");
}

#[test]
fn nested_nodes() {
    let inner = Expr::Binary(Binary {
        left: Box::new(number("1")),
        operator: operator(TokenType::Plus, "+"),
        right: Box::new(Expr::Grouping(Grouping {
            expression: Box::new(Expr::Unary(Unary {
                operator: operator(TokenType::Minus, "-"),
                right: Box::new(Expr::Literal(Literal { value: LiteralValue::Nil })),
            })),
        })),
    });
    assert_eq!(AstPrinter {}.print(&inner), "(+ 1 (group (- nil)))");
    assert_eq!(inner.accept(&AstPrinter {}), "(+ 1 (group (- nil)))");
}

#[test]
fn operator_is_printed_as_its_lexeme() {
    let node = Expr::Unary(Unary {
        operator: operator(TokenType::Minus, "minus"),
        right: Box::new(number("1")),
    });
    assert_eq!(AstPrinter {}.print(&node), "(minus 1)");
}

#[test]
fn every_kind_of_node_accepts_the_printer() {
    let printer = AstPrinter {};
    let literal = Literal { value: LiteralValue::Bool(true) };
    assert_eq!(literal.accept(&printer), "true");
    let unary = Unary { operator: operator(TokenType::Minus, "-"), right: Box::new(number("2")) };
    assert_eq!(unary.accept(&printer), "(- 2)");
    let grouping = Grouping { expression: Box::new(number("3")) };
    assert_eq!(grouping.accept(&printer), "(group 3)");
    let binary = Binary {
        left: Box::new(number("4")),
        operator: operator(TokenType::Slash, "/"),
        right: Box::new(number("5")),
    };
    assert_eq!(binary.accept(&printer), "(/ 4 5)");
}
