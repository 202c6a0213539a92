use lang::ast::generate_ast::{generate_ast, split_text, trim, whitespace};

#[test]
fn white_space_is_what_the_standard_library_takes_for_it() {
    for code in 0..=0x10FFFFu32 {
        if let Some(c) = char::from_u32(code) {
            assert_eq!(whitespace(c), c.is_whitespace(), "U+{:04X}", code);
        }
    }
}

#[test]
fn trim_removes_white_space_at_both_ends() {
    for text in ["", " ", "a", "  a", "a  ", " \t a b \n ", "\u{3000}x\u{a0}", " = ", "a  b"] {
        assert_eq!(trim(text), text.trim());
    }
}

#[test]
fn split_gives_one_piece_more_than_separators() {
    for text in ["", ",", "a", "a,b", ",a,,b,", "a = b = c", "no separator"] {
        for separator in [',', '='] {
            let expected: Vec<String> = text.split(separator).map(String::from).collect();
            assert_eq!(split_text(text, separator), expected);
        }
    }
}

#[test]
fn generated_text() {
    let expected = "use crate::lexical_analysis::Token;
#[derive(Copy)]
pub trait Expr {
    fn accept(&self, visitor: Box<dyn Visitor>) -> &str;
}

pub trait Visitor {
    fn visitBinaryExpr(&self, expr: &Binary) -> &str;
    fn visitGroupingExpr(&self, expr: &Grouping) -> &str;
    fn visitLiteralExpr(&self, expr: &Literal) -> &str;
    fn visitUnaryExpr(&self, expr: &Unary) -> &str;
}
pub struct Binary {
    pub left: Box<dyn Expr>,
    pub operator: Token,
    pub right: Box<dyn Expr>,
}

impl Expr for Binary {
fn accept(&self, visitor: Box<dyn Visitor>) -> &'static str {return visitor.visitBinaryExpr(&self);}
}

pub struct Grouping {
    pub expression: Box<dyn Expr>,
}

impl Expr for Grouping {
fn accept(&self, visitor: Box<dyn Visitor>) -> &'static str {return visitor.visitGroupingExpr(&self);}
}

pub struct Literal {
    pub value: String,
}

impl Expr for Literal {
fn accept(&self, visitor: Box<dyn Visitor>) -> &'static str {return visitor.visitLiteralExpr(&self);}
}

pub struct Unary {
    pub operator: Token,
    pub right: Box<dyn Expr>,
}

impl Expr for Unary {
fn accept(&self, visitor: Box<dyn Visitor>) -> &'static str {return visitor.visitUnaryExpr(&self);}
}

";
    assert_eq!(generate_ast(), expected);
}
