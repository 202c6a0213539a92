//! The expression tree.

use super::ast_printer::{printed, AstPrinter};
use crate::lexical_analysis::{LiteralValue, LiteralView, Token, TokenView};
use vstd::prelude::*;

verus! {

/// An operator between two operands.
#[derive(Debug)]
pub struct Binary {
    pub left: Box<Expr>,
    pub operator: Token,
    pub right: Box<Expr>,
}

/// An expression in parentheses.
#[derive(Debug)]
pub struct Grouping {
    pub expression: Box<Expr>,
}

/// A literal value.
#[derive(Debug)]
pub struct Literal {
    pub value: LiteralValue,
}

/// An operator before its operand.
#[derive(Debug)]
pub struct Unary {
    pub operator: Token,
    pub right: Box<Expr>,
}

/// An expression: a tree whose nodes own their children.
#[derive(Debug)]
pub enum Expr {
    Binary(Binary),
    Grouping(Grouping),
    Literal(Literal),
    Unary(Unary),
}

/// Mathematical model of an [`Expr`].
pub enum ExprView {
    Binary { left: Box<ExprView>, operator: TokenView, right: Box<ExprView> },
    Grouping { expression: Box<ExprView> },
    Literal { value: LiteralView },
    Unary { operator: TokenView, right: Box<ExprView> },
}

impl ExprView {
    /// The number of nodes on the longest path from the root to a leaf.
    pub open spec fn height(self) -> nat
        decreases self,
    {
        match self {
            ExprView::Binary { left, operator, right } => 1 + if left.height() >= right.height() {
                left.height()
            } else {
                right.height()
            },
            ExprView::Grouping { expression } => 1 + expression.height(),
            ExprView::Literal { value } => 1,
            ExprView::Unary { operator, right } => 1 + right.height(),
        }
    }
}

impl Expr {
    /// The model of the tree, node by node.
    pub open spec fn model(&self) -> ExprView
        decreases self,
    {
        match self {
            Expr::Binary(binary) => ExprView::Binary {
                left: Box::new((*binary.left).model()),
                operator: binary.operator@,
                right: Box::new((*binary.right).model()),
            },
            Expr::Grouping(grouping) => ExprView::Grouping {
                expression: Box::new((*grouping.expression).model()),
            },
            Expr::Literal(literal) => ExprView::Literal { value: literal.value@ },
            Expr::Unary(unary) => ExprView::Unary {
                operator: unary.operator@,
                right: Box::new((*unary.right).model()),
            },
        }
    }
}

impl View for Expr {
    type V = ExprView;

    open spec fn view(&self) -> ExprView {
        self.model()
    }
}

impl View for Binary {
    type V = ExprView;

    open spec fn view(&self) -> ExprView {
        Expr::Binary(*self).model()
    }
}

impl View for Grouping {
    type V = ExprView;

    open spec fn view(&self) -> ExprView {
        Expr::Grouping(*self).model()
    }
}

impl View for Literal {
    type V = ExprView;

    open spec fn view(&self) -> ExprView {
        Expr::Literal(*self).model()
    }
}

impl View for Unary {
    type V = ExprView;

    open spec fn view(&self) -> ExprView {
        Expr::Unary(*self).model()
    }
}

/// A consumer of expressions: one operation for each kind of node, all with
/// results of one type.
pub trait Visitor {
    fn visit_binary_expr(&self, expr: &Binary) -> String;

    fn visit_grouping_expr(&self, expr: &Grouping) -> String;

    fn visit_literal_expr(&self, expr: &Literal) -> String;

    fn visit_unary_expr(&self, expr: &Unary) -> String;
}

impl Binary {
    /// Hands the node to the printer's operation for binary nodes.
    pub fn accept(&self, visitor: &AstPrinter) -> (text: String)
        ensures
            text@ == printed(self@),
        decreases self@.height(), 2nat,
    {
        visitor.visit_binary_expr(self)
    }
}

impl Grouping {
    /// Hands the node to the printer's operation for groups.
    pub fn accept(&self, visitor: &AstPrinter) -> (text: String)
        ensures
            text@ == printed(self@),
        decreases self@.height(), 2nat,
    {
        visitor.visit_grouping_expr(self)
    }
}

impl Literal {
    /// Hands the node to the printer's operation for literals.
    pub fn accept(&self, visitor: &AstPrinter) -> (text: String)
        ensures
            text@ == printed(self@),
        decreases self@.height(), 2nat,
    {
        visitor.visit_literal_expr(self)
    }
}

impl Unary {
    /// Hands the node to the printer's operation for unary nodes.
    pub fn accept(&self, visitor: &AstPrinter) -> (text: String)
        ensures
            text@ == printed(self@),
        decreases self@.height(), 2nat,
    {
        visitor.visit_unary_expr(self)
    }
}

impl Expr {
    /// Hands the expression to the operation of the printer that is meant
    /// for its kind of node.
    pub fn accept(&self, visitor: &AstPrinter) -> (text: String)
        ensures
            text@ == printed(self@),
        decreases self@.height(), 3nat,
    {
        match self {
            Expr::Binary(binary) => binary.accept(visitor),
            Expr::Grouping(grouping) => grouping.accept(visitor),
            Expr::Literal(literal) => literal.accept(visitor),
            Expr::Unary(unary) => unary.accept(visitor),
        }
    }
}

} // verus!
