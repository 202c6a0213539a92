//! What holds of every parse.

use super::ast_printer::printed;
use super::expression::ExprView;
use super::grammar::{
    binary_level, equality_level, is_prefix_operator, kind_at, lemma_binary_advances,
    parse_binary, parse_expression, parse_operators, parse_primary, parse_unary, remaining,
    respects_precedence, token_at, unary_level, Parsed,
};
use super::parser::{parse, ParseErrorView};
use crate::lexical_analysis::laws::{
    is_numeral, is_word, lemma_scan_from, lemma_scan_numeral, lemma_scan_word, scanned_at,
    token_starts,
};
use crate::lexical_analysis::model::{
    eof_token, keyword_table, lemma_keyword_table, scan, word_kind,
};
use crate::lexical_analysis::{LiteralView, TokenType, TokenView};
use vstd::prelude::*;

verus! {

/// What may stand at a level may stand at every lower level.
pub proof fn lemma_level_lowers(expr: ExprView, level: nat, lower: nat)
    requires
        respects_precedence(expr, level),
        lower <= level,
    ensures
        respects_precedence(expr, lower),
{
}

/// A primary may stand at every level.
pub proof fn lemma_primary_respects_precedence(tokens: Seq<TokenView>, pos: int, level: nat)
    ensures
        parse_primary(tokens, pos) matches Parsed::Expression { expr, .. }
            ==> respects_precedence(expr, level),
    decreases remaining(tokens, pos), 0nat, 1nat,
{
    if kind_at(tokens, pos) == TokenType::LeftParen {
        lemma_binary_respects_precedence(tokens, pos + 1, equality_level());
    }
}

/// A unary expression may stand at the level of the prefix operators.
pub proof fn lemma_unary_respects_precedence(tokens: Seq<TokenView>, pos: int)
    ensures
        parse_unary(tokens, pos) matches Parsed::Expression { expr, .. } ==> respects_precedence(
            expr,
            unary_level(),
        ),
    decreases remaining(tokens, pos), 0nat, 2nat,
{
    if is_prefix_operator(kind_at(tokens, pos)) {
        lemma_unary_respects_precedence(tokens, pos + 1);
    } else {
        lemma_primary_respects_precedence(tokens, pos, unary_level());
    }
}

/// The expression that the rule of a level yields may stand at that level.
pub proof fn lemma_binary_respects_precedence(tokens: Seq<TokenView>, pos: int, level: nat)
    requires
        1 <= level <= unary_level(),
    ensures
        parse_binary(tokens, pos, level) matches Parsed::Expression { expr, .. }
            ==> respects_precedence(expr, level),
    decreases remaining(tokens, pos), (unary_level() - level) as nat + 1, 0nat,
{
    if level >= unary_level() {
        lemma_unary_respects_precedence(tokens, pos);
    } else {
        lemma_binary_respects_precedence(tokens, pos, level + 1);
        lemma_binary_advances(tokens, pos, level + 1);
        if let Parsed::Expression { expr, next } = parse_binary(tokens, pos, level + 1) {
            lemma_level_lowers(expr, level + 1, level);
            lemma_operators_respect_precedence(tokens, expr, next, level);
        }
    }
}

/// Folding the operators of a level onto an operand that may stand at that
/// level yields an expression that may stand there.
pub proof fn lemma_operators_respect_precedence(
    tokens: Seq<TokenView>,
    left: ExprView,
    pos: int,
    level: nat,
)
    requires
        1 <= level < unary_level(),
        respects_precedence(left, level),
    ensures
        parse_operators(tokens, left, pos, level) matches Parsed::Expression { expr, .. }
            ==> respects_precedence(expr, level),
    decreases remaining(tokens, pos), 0nat, 0nat,
{
    if binary_level(kind_at(tokens, pos)) == level {
        lemma_binary_respects_precedence(tokens, pos + 1, level + 1);
        lemma_binary_advances(tokens, pos + 1, level + 1);
        if let Parsed::Expression { expr, next } = parse_binary(tokens, pos + 1, level + 1) {
            if pos < next {
                lemma_operators_respect_precedence(
                    tokens,
                    ExprView::Binary {
                        left: Box::new(left),
                        operator: token_at(tokens, pos),
                        right: Box::new(expr),
                    },
                    next,
                    level,
                );
            }
        }
    }
}

/// Precedence and associativity. In every expression that the parser
/// returns, `*` and `/` bind tighter than `+` and `-`, these tighter than
/// the comparisons, these tighter than `==` and `!=`, and the prefix
/// operators tighter than every binary operator; operators of one level
/// associate to the left.
pub proof fn lemma_parse_respects_precedence(tokens: Seq<TokenView>, expr: ExprView)
    requires
        parse(tokens) == Ok::<ExprView, ParseErrorView>(expr),
    ensures
        respects_precedence(expr, equality_level()),
{
    lemma_binary_respects_precedence(tokens, 0, equality_level());
}

/// Associativity, spelled out for a node and its right operand: in an
/// expression that respects precedence, the operator of a right operand
/// binds tighter than the operator above it, so `a - b - c` can only be
/// `(a - b) - c`; the operator of a left operand binds at least as tightly.
pub proof fn lemma_operands_bind_tighter(expr: ExprView, level: nat)
    requires
        respects_precedence(expr, level),
    ensures
        expr matches ExprView::Binary { left, operator, right } ==> {
            &&& *right matches ExprView::Binary { operator: inner, .. } ==> binary_level(
                inner.token_type,
            ) > binary_level(operator.token_type)
            &&& *left matches ExprView::Binary { operator: inner, .. } ==> binary_level(
                inner.token_type,
            ) >= binary_level(operator.token_type)
        },
        expr matches ExprView::Unary { right, .. } ==> !(*right is Binary),
{
    reveal_with_fuel(respects_precedence, 2);
}

/// After the operators of a level, the expression is the operand they
/// followed or a binary node.
proof fn lemma_operators_keep_or_build(tokens: Seq<TokenView>, left: ExprView, pos: int, level: nat)
    ensures
        parse_operators(tokens, left, pos, level) matches Parsed::Expression { expr, next }
            ==> expr is Binary || (expr == left && next == pos),
    decreases remaining(tokens, pos),
{
    if 1 <= level < unary_level() && binary_level(kind_at(tokens, pos)) == level {
        lemma_binary_advances(tokens, pos + 1, level + 1);
        if let Parsed::Expression { expr, next } = parse_binary(tokens, pos + 1, level + 1) {
            if pos < next {
                lemma_operators_keep_or_build(
                    tokens,
                    ExprView::Binary {
                        left: Box::new(left),
                        operator: token_at(tokens, pos),
                        right: Box::new(expr),
                    },
                    next,
                    level,
                );
            }
        }
    }
}

/// A literal comes from a primary: where the rule of a level yields a
/// literal, the primary at the same position yields it.
proof fn lemma_literal_is_primary(tokens: Seq<TokenView>, pos: int, level: nat)
    ensures
        parse_binary(tokens, pos, level) matches Parsed::Expression { expr, .. } ==> (expr
            is Literal ==> parse_primary(tokens, pos) == parse_binary(tokens, pos, level)),
    decreases (unary_level() - level) as nat,
{
    if level < unary_level() {
        lemma_literal_is_primary(tokens, pos, level + 1);
        lemma_binary_advances(tokens, pos, level + 1);
        if let Parsed::Expression { expr, next } = parse_binary(tokens, pos, level + 1) {
            lemma_operators_keep_or_build(tokens, expr, next, level);
            assert(parse_binary(tokens, pos, level) == parse_operators(tokens, expr, next, level));
        }
    } else {
        assert(parse_binary(tokens, pos, level) == parse_unary(tokens, pos));
        if !is_prefix_operator(kind_at(tokens, pos)) {
            assert(parse_unary(tokens, pos) == parse_primary(tokens, pos));
        }
    }
}

/// The kinds of the tokens that are literals by themselves.
pub open spec fn is_literal_kind(kind: TokenType) -> bool {
    kind == TokenType::False || kind == TokenType::True || kind == TokenType::Nil || kind
        == TokenType::Number || kind == TokenType::String
}

/// A single literal token is parsed as that literal.
proof fn lemma_parse_one_token(token: TokenView, line: nat)
    requires
        is_literal_kind(token.token_type),
    ensures
        parse_expression(seq![token, eof_token(line)], 0) == parse_primary(
            seq![token, eof_token(line)],
            0,
        ),
        parse_primary(seq![token, eof_token(line)], 0) is Expression,
{
    let tokens = seq![token, eof_token(line)];
    let primary = parse_primary(tokens, 0);
    assert(kind_at(tokens, 0) == token.token_type);
    assert(kind_at(tokens, 1) == TokenType::Eof);
    assert(primary matches Parsed::Expression { next, .. } && next == 1);
    let expr = primary->expr;
    assert(parse_unary(tokens, 0) == primary);
    assert(parse_binary(tokens, 0, 5) == primary);
    assert(parse_operators(tokens, expr, 1, 4) == primary);
    assert(parse_binary(tokens, 0, 4) == primary);
    assert(parse_operators(tokens, expr, 1, 3) == primary);
    assert(parse_binary(tokens, 0, 3) == primary);
    assert(parse_operators(tokens, expr, 1, 2) == primary);
    assert(parse_binary(tokens, 0, 2) == primary);
    assert(parse_operators(tokens, expr, 1, 1) == primary);
    assert(parse_binary(tokens, 0, 1) == primary);
}

/// The text that is a reserved word for a literal is scanned and parsed as
/// that literal.
proof fn lemma_word_round_trip(text: Seq<char>, value: LiteralView)
    requires
        is_word(text),
        (word_kind(text) == TokenType::Nil && value == LiteralView::Nil) || (word_kind(text)
            == TokenType::True && value == LiteralView::Bool(true)) || (word_kind(text)
            == TokenType::False && value == LiteralView::Bool(false)),
    ensures
        parse(scan(text).tokens) == Ok::<ExprView, ParseErrorView>(ExprView::Literal { value }),
{
    lemma_scan_word(text);
    lemma_parse_one_token(scan(text).tokens[0], 1);
}

/// The text that is a numeral is scanned and parsed as the number with that
/// numeral.
proof fn lemma_numeral_round_trip(numeral: Seq<char>)
    requires
        is_numeral(numeral),
    ensures
        parse(scan(numeral).tokens) == Ok::<ExprView, ParseErrorView>(
            ExprView::Literal { value: LiteralView::Number(numeral) },
        ),
{
    lemma_scan_numeral(numeral);
    lemma_parse_one_token(scan(numeral).tokens[0], 1);
}

/// The words that the literals `nil`, `true` and `false` are written as are
/// the reserved words of their kinds.
proof fn lemma_literal_words()
    ensures
        is_word("nil"@) && word_kind("nil"@) == TokenType::Nil,
        is_word("true"@) && word_kind("true"@) == TokenType::True,
        is_word("false"@) && word_kind("false"@) == TokenType::False,
{
    lemma_keyword_table();
    assert(keyword_table()[7].0 == "nil"@);
    assert(keyword_table()[13].0 == "true"@);
    assert(keyword_table()[3].0 == "false"@);
    reveal_strlit("nil");
    reveal_strlit("true");
    reveal_strlit("false");
}

/// A number that the parser has built from the tokens of a source text holds
/// a numeral.
proof fn lemma_parsed_number_is_numeral(source: Seq<char>, numeral: Seq<char>)
    requires
        parse(scan(source).tokens) == Ok::<ExprView, ParseErrorView>(
            ExprView::Literal { value: LiteralView::Number(numeral) },
        ),
    ensures
        is_numeral(numeral),
{
    let tokens = scan(source).tokens;
    lemma_literal_is_primary(tokens, 0, equality_level());
    lemma_scan_from(source, 0);
    assert(token_at(tokens, 0).literal == LiteralView::Number(numeral));
    assert(0 < tokens.len() - 1);
    assert(scanned_at(source, token_starts(source)[0], tokens[0]));
}

/// Round trip. Where the parser has built a literal other than a string
/// from the tokens of a source text, the text that the printer writes for
/// that literal is scanned and parsed as the same literal again.
///
/// The text of any other expression is not: a string is printed without its
/// quotes, and every other node in a prefix notation that the grammar does
/// not read back.
pub proof fn lemma_literal_round_trip(source: Seq<char>, expr: ExprView)
    requires
        parse(scan(source).tokens) == Ok::<ExprView, ParseErrorView>(expr),
        expr matches ExprView::Literal { value } && !(value is String),
    ensures
        parse(scan(printed(expr)).tokens) == Ok::<ExprView, ParseErrorView>(expr),
{
    let value = expr->value;
    lemma_literal_words();
    match value {
        LiteralView::Number(numeral) => {
            lemma_parsed_number_is_numeral(source, numeral);
            lemma_numeral_round_trip(numeral);
        },
        _ => {
            lemma_word_round_trip(printed(expr), value);
        },
    }
}

} // verus!
