//! The grammar of expressions, as a function from tokens to trees.
//!
//! ```text
//! expression  → equality
//! equality    → comparison ( ( "!=" | "==" ) comparison )*
//! comparison  → term       ( ( ">" | ">=" | "<" | "<=" ) term )*
//! term        → factor     ( ( "-" | "+" ) factor )*
//! factor      → unary      ( ( "/" | "*" ) unary )*
//! unary       → ( "!" | "-" ) unary | primary
//! primary     → "false" | "true" | "nil" | NUMBER | STRING
//!             | "(" expression ")"
//! ```

use super::expression::ExprView;
use crate::lexical_analysis::model::eof_token;
use crate::lexical_analysis::{LiteralView, TokenType, TokenView};
use vstd::prelude::*;

verus! {

/// The token at `pos`; past the last token, an end-of-input token on line 0.
pub open spec fn token_at(tokens: Seq<TokenView>, pos: int) -> TokenView {
    if 0 <= pos < tokens.len() {
        tokens[pos]
    } else {
        eof_token(0)
    }
}

/// The kind of the token at `pos`.
pub open spec fn kind_at(tokens: Seq<TokenView>, pos: int) -> TokenType {
    token_at(tokens, pos).token_type
}

/// The number of tokens from `pos` on.
pub open spec fn remaining(tokens: Seq<TokenView>, pos: int) -> nat {
    if pos < 0 {
        tokens.len()
    } else if pos < tokens.len() {
        (tokens.len() - pos) as nat
    } else {
        0
    }
}

/// The precedence level of equality.
pub open spec fn equality_level() -> nat {
    1
}

/// The precedence level of comparison.
pub open spec fn comparison_level() -> nat {
    2
}

/// The precedence level of addition and subtraction.
pub open spec fn term_level() -> nat {
    3
}

/// The precedence level of multiplication and division.
pub open spec fn factor_level() -> nat {
    4
}

/// The precedence level of the prefix operators, above every binary one.
pub open spec fn unary_level() -> nat {
    5
}

/// The precedence level of a binary operator, from 1 for equality, the
/// loosest, to 4 for multiplication and division, the tightest; 0 for a
/// token that is no binary operator.
pub open spec fn binary_level(kind: TokenType) -> nat {
    match kind {
        TokenType::BangEqual | TokenType::EqualEqual => 1,
        TokenType::Greater | TokenType::GreaterEqual | TokenType::Less | TokenType::LessEqual => 2,
        TokenType::Minus | TokenType::Plus => 3,
        TokenType::Slash | TokenType::Star => 4,
        _ => 0,
    }
}

/// Whether a token is a prefix operator.
pub open spec fn is_prefix_operator(kind: TokenType) -> bool {
    kind == TokenType::Bang || kind == TokenType::Minus
}

/// The outcome of parsing a piece of the grammar from some position.
pub enum Parsed {
    /// An expression, and the position after it.
    Expression { expr: ExprView, next: int },
    /// A parse error with the given message, raised at the token at `at`.
    Failure { at: int, message: Seq<char> },
}

/// The message of the error for a token that cannot begin an expression.
pub open spec fn expect_expression() -> Seq<char> {
    "Expect expression."@
}

/// The message of the error for a parenthesis that is not closed.
pub open spec fn expect_right_paren() -> Seq<char> {
    "Expect ')' after expression."@
}

/// A literal of the given value, and the position after it.
pub open spec fn literal(value: LiteralView, next: int) -> Parsed {
    Parsed::Expression { expr: ExprView::Literal { value }, next }
}

/// `primary`: a literal, or an expression in parentheses.
pub open spec fn parse_primary(tokens: Seq<TokenView>, pos: int) -> Parsed
    decreases remaining(tokens, pos), 0nat, 1nat,
{
    let kind = kind_at(tokens, pos);
    if kind == TokenType::False {
        literal(LiteralView::Bool(false), pos + 1)
    } else if kind == TokenType::True {
        literal(LiteralView::Bool(true), pos + 1)
    } else if kind == TokenType::Nil {
        literal(LiteralView::Nil, pos + 1)
    } else if kind == TokenType::Number || kind == TokenType::String {
        literal(token_at(tokens, pos).literal, pos + 1)
    } else if kind == TokenType::LeftParen {
        match parse_binary(tokens, pos + 1, equality_level()) {
            Parsed::Expression { expr, next } => if kind_at(tokens, next) == TokenType::RightParen {
                Parsed::Expression {
                    expr: ExprView::Grouping { expression: Box::new(expr) },
                    next: next + 1,
                }
            } else {
                Parsed::Failure { at: next, message: expect_right_paren() }
            },
            Parsed::Failure { at, message } => Parsed::Failure { at, message },
        }
    } else {
        Parsed::Failure { at: pos, message: expect_expression() }
    }
}

/// `unary`: prefix operators, then a primary.
pub open spec fn parse_unary(tokens: Seq<TokenView>, pos: int) -> Parsed
    decreases remaining(tokens, pos), 0nat, 2nat,
{
    if is_prefix_operator(kind_at(tokens, pos)) {
        match parse_unary(tokens, pos + 1) {
            Parsed::Expression { expr, next } => Parsed::Expression {
                expr: ExprView::Unary { operator: token_at(tokens, pos), right: Box::new(expr) },
                next,
            },
            Parsed::Failure { at, message } => Parsed::Failure { at, message },
        }
    } else {
        parse_primary(tokens, pos)
    }
}

/// The rule of a precedence level: `equality` at level 1, `comparison` at 2,
/// `term` at 3, `factor` at 4, and `unary` above them. A binary rule is an
/// operand of the next level, followed by any number of operators of its own
/// level, each with an operand of the next level.
pub open spec fn parse_binary(tokens: Seq<TokenView>, pos: int, level: nat) -> Parsed
    decreases remaining(tokens, pos), (unary_level() - level) as nat + 1, 0nat,
{
    if level >= unary_level() {
        parse_unary(tokens, pos)
    } else {
        match parse_binary(tokens, pos, level + 1) {
            // An operand is never empty: the test only shows that the
            // definition is well founded.
            Parsed::Expression { expr, next } => if pos < next {
                parse_operators(tokens, expr, next, level)
            } else {
                Parsed::Expression { expr, next }
            },
            Parsed::Failure { at, message } => Parsed::Failure { at, message },
        }
    }
}

/// The operators of a level that follow the operand `left`, folded to the
/// left: each operator makes a `Binary` of everything before it and the
/// operand after it.
pub open spec fn parse_operators(
    tokens: Seq<TokenView>,
    left: ExprView,
    pos: int,
    level: nat,
) -> Parsed
    decreases remaining(tokens, pos), 0nat, 0nat,
{
    if 1 <= level < unary_level() && binary_level(kind_at(tokens, pos)) == level {
        match parse_binary(tokens, pos + 1, level + 1) {
            Parsed::Expression { expr, next } => if pos < next {
                parse_operators(
                    tokens,
                    ExprView::Binary {
                        left: Box::new(left),
                        operator: token_at(tokens, pos),
                        right: Box::new(expr),
                    },
                    next,
                    level,
                )
            } else {
                Parsed::Expression { expr, next }
            },
            Parsed::Failure { at, message } => Parsed::Failure { at, message },
        }
    } else {
        Parsed::Expression { expr: left, next: pos }
    }
}

/// `expression`, the rule that a parse begins with.
pub open spec fn parse_expression(tokens: Seq<TokenView>, pos: int) -> Parsed {
    parse_binary(tokens, pos, equality_level())
}

/// Whether an expression may stand, without parentheses, where the grammar
/// asks for an expression of the given precedence level, and is itself built
/// that way throughout.
///
/// The operands of a binary operator bind at least as tightly as the
/// operator: the left one may be of the operator's own level, so that a
/// chain of operators of one level leans to the left; the right one is of a
/// higher level. The operand of a prefix operator is another prefix
/// operator, a literal or a group. Within a group any expression may stand.
pub open spec fn respects_precedence(expr: ExprView, level: nat) -> bool
    decreases expr,
{
    match expr {
        ExprView::Binary { left, operator, right } => {
            let own = binary_level(operator.token_type);
            &&& 1 <= own
            &&& level <= own
            &&& respects_precedence(*left, own)
            &&& respects_precedence(*right, own + 1)
        },
        ExprView::Unary { operator, right } => {
            &&& is_prefix_operator(operator.token_type)
            &&& level <= unary_level()
            &&& respects_precedence(*right, unary_level())
        },
        ExprView::Grouping { expression } => respects_precedence(*expression, equality_level()),
        ExprView::Literal { value } => true,
    }
}

/// A primary is at least one token long and ends within the tokens.
pub proof fn lemma_primary_advances(tokens: Seq<TokenView>, pos: int)
    ensures
        parse_primary(tokens, pos) matches Parsed::Expression { next, .. } ==> 0 <= pos < next
            <= tokens.len(),
    decreases remaining(tokens, pos), 0nat, 1nat,
{
    if kind_at(tokens, pos) == TokenType::LeftParen {
        lemma_binary_advances(tokens, pos + 1, equality_level());
    }
}

/// A unary expression is at least one token long and ends within the tokens.
pub proof fn lemma_unary_advances(tokens: Seq<TokenView>, pos: int)
    ensures
        parse_unary(tokens, pos) matches Parsed::Expression { next, .. } ==> 0 <= pos < next
            <= tokens.len(),
    decreases remaining(tokens, pos), 0nat, 2nat,
{
    if is_prefix_operator(kind_at(tokens, pos)) {
        lemma_unary_advances(tokens, pos + 1);
    } else {
        lemma_primary_advances(tokens, pos);
    }
}

/// The expression of a precedence level is at least one token long and ends
/// within the tokens.
pub proof fn lemma_binary_advances(tokens: Seq<TokenView>, pos: int, level: nat)
    ensures
        parse_binary(tokens, pos, level) matches Parsed::Expression { next, .. } ==> 0 <= pos
            < next <= tokens.len(),
    decreases remaining(tokens, pos), (unary_level() - level) as nat + 1, 0nat,
{
    if level >= unary_level() {
        lemma_unary_advances(tokens, pos);
    } else {
        lemma_binary_advances(tokens, pos, level + 1);
        if let Parsed::Expression { expr, next } = parse_binary(tokens, pos, level + 1) {
            lemma_operators_advance(tokens, expr, next, level);
        }
    }
}

/// The operators that follow an operand end at or behind the position they
/// begin at, and within the tokens.
pub proof fn lemma_operators_advance(tokens: Seq<TokenView>, left: ExprView, pos: int, level: nat)
    requires
        0 <= pos <= tokens.len(),
    ensures
        parse_operators(tokens, left, pos, level) matches Parsed::Expression { next, .. } ==> pos
            <= next <= tokens.len(),
    decreases remaining(tokens, pos), 0nat, 0nat,
{
    if 1 <= level < unary_level() && binary_level(kind_at(tokens, pos)) == level {
        lemma_binary_advances(tokens, pos + 1, level + 1);
        if let Parsed::Expression { expr, next } = parse_binary(tokens, pos + 1, level + 1) {
            lemma_operators_advance(
                tokens,
                ExprView::Binary {
                    left: Box::new(left),
                    operator: token_at(tokens, pos),
                    right: Box::new(expr),
                },
                next,
                level,
            );
        }
    }
}

} // verus!
