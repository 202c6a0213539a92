//! Printing expression trees in parenthesized prefix notation.

use super::expression::{Binary, Expr, ExprView, Grouping, Literal, Unary, Visitor};
use vstd::prelude::*;

verus! {

/// The text of an expression: a literal as it is written, every other node
/// in parentheses, the operator (or the word `group`) first, then the
/// operands, separated by single spaces.
pub open spec fn printed(expr: ExprView) -> Seq<char>
    decreases expr,
{
    match expr {
        ExprView::Binary { left, operator, right } => "("@ + operator.lexeme + " "@ + printed(*left)
            + " "@ + printed(*right) + ")"@,
        ExprView::Grouping { expression } => "("@ + "group"@ + " "@ + printed(*expression) + ")"@,
        ExprView::Literal { value } => value.text(),
        ExprView::Unary { operator, right } => "("@ + operator.lexeme + " "@ + printed(*right)
            + ")"@,
    }
}

/// The texts of some expressions, each with a space before it.
pub open spec fn spaced(exprs: Seq<ExprView>) -> Seq<char>
    decreases exprs.len(),
{
    if exprs.len() == 0 {
        Seq::empty()
    } else {
        spaced(exprs.drop_last()) + " "@ + printed(exprs.last())
    }
}

/// The models of some expressions, in order.
pub open spec fn expr_views(exprs: Seq<&Expr>) -> Seq<ExprView> {
    Seq::new(exprs.len(), |i: int| exprs[i]@)
}

/// The height of the tallest of some expressions.
pub open spec fn tallest(exprs: Seq<ExprView>) -> nat
    decreases exprs.len(),
{
    if exprs.len() == 0 {
        0
    } else if exprs.last().height() >= tallest(exprs.drop_last()) {
        exprs.last().height()
    } else {
        tallest(exprs.drop_last())
    }
}

/// No expression is taller than the tallest.
proof fn lemma_tallest(exprs: Seq<ExprView>, i: int)
    requires
        0 <= i < exprs.len(),
    ensures
        exprs[i].height() <= tallest(exprs),
    decreases exprs.len(),
{
    if i < exprs.len() - 1 {
        lemma_tallest(exprs.drop_last(), i);
    }
}

/// The text and the height of a single expression, taken as a sequence.
proof fn lemma_one_expression(a: ExprView)
    ensures
        spaced(seq![a]) == " "@ + printed(a),
        tallest(seq![a]) == a.height(),
{
    let one = seq![a];
    let none = Seq::<ExprView>::empty();
    assert(one.drop_last() =~= none);
    assert(one.last() == a);
    assert(spaced(none) =~= Seq::empty());
    assert(tallest(none) == 0);
    assert(spaced(one) =~= " "@ + printed(a));
}

/// The text and the height of two expressions, taken as a sequence.
proof fn lemma_two_expressions(a: ExprView, b: ExprView)
    ensures
        spaced(seq![a, b]) == " "@ + printed(a) + " "@ + printed(b),
        tallest(seq![a, b]) == if a.height() >= b.height() {
            a.height()
        } else {
            b.height()
        },
{
    let two = seq![a, b];
    assert(two.drop_last() =~= seq![a]);
    assert(two.last() == b);
    lemma_one_expression(a);
    assert(spaced(two) =~= " "@ + printed(a) + " "@ + printed(b));
}

/// Prints expression trees.
pub struct AstPrinter {}

impl Visitor for AstPrinter {
    fn visit_binary_expr(&self, expr: &Binary) -> (text: String)
        ensures
            text@ == printed(expr@),
        decreases expr@.height(), 1nat,
    {
        let exprs = vec![&*expr.left, &*expr.right];
        proof {
            assert(expr_views(exprs@) =~= seq![expr.left@, expr.right@]);
            lemma_two_expressions(expr.left@, expr.right@);
            assert(printed(expr@) =~= "("@ + expr.operator.lexeme@ + spaced(expr_views(exprs@))
                + ")"@);
        }
        self.parenthesize(expr.operator.lexeme.clone(), exprs)
    }

    fn visit_grouping_expr(&self, expr: &Grouping) -> (text: String)
        ensures
            text@ == printed(expr@),
        decreases expr@.height(), 1nat,
    {
        let exprs = vec![&*expr.expression];
        proof {
            assert(expr_views(exprs@) =~= seq![expr.expression@]);
            lemma_one_expression(expr.expression@);
            assert(printed(expr@) =~= "("@ + "group"@ + spaced(expr_views(exprs@)) + ")"@);
        }
        self.parenthesize("group".to_owned(), exprs)
    }

    fn visit_literal_expr(&self, expr: &Literal) -> (text: String)
        ensures
            text@ == printed(expr@),
        decreases expr@.height(), 1nat,
    {
        expr.value.text()
    }

    fn visit_unary_expr(&self, expr: &Unary) -> (text: String)
        ensures
            text@ == printed(expr@),
        decreases expr@.height(), 1nat,
    {
        let exprs = vec![&*expr.right];
        proof {
            assert(expr_views(exprs@) =~= seq![expr.right@]);
            lemma_one_expression(expr.right@);
            assert(printed(expr@) =~= "("@ + expr.operator.lexeme@ + spaced(expr_views(exprs@))
                + ")"@);
        }
        self.parenthesize(expr.operator.lexeme.clone(), exprs)
    }
}

impl AstPrinter {
    /// The text of an expression.
    pub fn print(&self, expr: &Expr) -> (text: String)
        ensures
            text@ == printed(expr@),
    {
        expr.accept(self)
    }

    /// A name and the texts of some expressions, separated by spaces and
    /// enclosed in parentheses.
    fn parenthesize(&self, name: String, exprs: Vec<&Expr>) -> (text: String)
        ensures
            text@ == "("@ + name@ + spaced(expr_views(exprs@)) + ")"@,
        decreases tallest(expr_views(exprs@)) + 1, 0nat,
    {
        let mut parenthesized = "(".to_owned();
        parenthesized.append(name.as_str());
        let mut i: usize = 0;
        while i < exprs.len()
            invariant
                i <= exprs.len(),
                parenthesized@ == "("@ + name@ + spaced(expr_views(exprs@).take(i as int)),
            decreases exprs.len() - i,
        {
            proof {
                lemma_tallest(expr_views(exprs@), i as int);
                assert(expr_views(exprs@).take(i + 1).drop_last() == expr_views(exprs@).take(
                    i as int,
                ));
            }
            parenthesized.append(" ");
            let part = exprs[i].accept(self);
            parenthesized.append(part.as_str());
            i += 1;
        }
        assert(expr_views(exprs@).take(i as int) == expr_views(exprs@));
        parenthesized.append(")");
        parenthesized
    }
}

} // verus!
