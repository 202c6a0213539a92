//! The recursive-descent parser.

use super::expression::{Binary, Expr, ExprView, Grouping, Literal, Unary};
use super::grammar::{
    comparison_level, equality_level, factor_level, kind_at, lemma_binary_advances,
    parse_binary, parse_expression, parse_operators, parse_primary, parse_unary, remaining,
    respects_precedence, term_level, token_at, unary_level, Parsed,
};
use super::laws::lemma_binary_respects_precedence;
use crate::lexical_analysis::model::eof_token;
use crate::lexical_analysis::{token_views, LiteralValue, Token, TokenType, TokenView};
use crate::{report, report_text};
use vstd::prelude::*;

verus! {

/// A parse error: the token that the grammar could not accept, and why.
#[derive(Debug)]
pub struct ParseError {
    pub token: Token,
    pub message: String,
}

/// Mathematical model of a [`ParseError`].
pub struct ParseErrorView {
    pub token: TokenView,
    pub message: Seq<char>,
}

impl View for ParseError {
    type V = ParseErrorView;

    open spec fn view(&self) -> ParseErrorView {
        ParseErrorView { token: self.token@, message: self.message@ }
    }
}

impl ParseErrorView {
    /// Where the error was found: ` at end` for the end of the input, else
    /// ` at '<lexeme>'`.
    pub open spec fn location(self) -> Seq<char> {
        if self.token.token_type == TokenType::Eof {
            " at end"@
        } else {
            " at '"@ + self.token.lexeme + "'"@
        }
    }

    /// The line that reports the error: `[line: L] Error<where>: <message>`.
    pub open spec fn report(self) -> Seq<char> {
        report_text(self.token.line, self.location(), self.message)
    }
}

impl ParseError {
    /// Where the error was found: ` at end` for the end of the input, else
    /// ` at '<lexeme>'`.
    pub fn location(&self) -> (text: String)
        ensures
            text@ == self@.location(),
    {
        if self.token.token_type == TokenType::Eof {
            " at end".to_owned()
        } else {
            let mut text = " at '".to_owned();
            text.append(self.token.lexeme.as_str());
            text.append("'");
            text
        }
    }

    /// The line that reports the error: `[line: L] Error<where>: <message>`.
    pub fn report(&self) -> (text: String)
        ensures
            text@ == self@.report(),
    {
        report(self.token.line, self.location(), self.message.clone())
    }
}

/// What parsing a sequence of tokens from its beginning comes to: the
/// expression, or the error.
pub open spec fn parse(tokens: Seq<TokenView>) -> Result<ExprView, ParseErrorView> {
    match parse_expression(tokens, 0) {
        Parsed::Expression { expr, next } => Ok(expr),
        Parsed::Failure { at, message } => Err(
            ParseErrorView { token: token_at(tokens, at), message },
        ),
    }
}

/// The kinds of token that a statement begins with.
pub open spec fn begins_statement(kind: TokenType) -> bool {
    kind == TokenType::Class || kind == TokenType::Fun || kind == TokenType::Var
        || kind == TokenType::For || kind == TokenType::If || kind == TokenType::While
        || kind == TokenType::Print || kind == TokenType::Return
}

/// Whether the parser can resume at `pos` after an error: at the end of the
/// input, behind a semicolon, or before a token that begins a statement.
pub open spec fn is_boundary(tokens: Seq<TokenView>, pos: int) -> bool {
    kind_at(tokens, pos) == TokenType::Eof || kind_at(tokens, pos - 1) == TokenType::Semicolon
        || begins_statement(kind_at(tokens, pos))
}

/// A cursor over a sequence of tokens.
///
/// Behind the last token the parser sees an end-of-input token on line 0, so
/// the tokens need not end with one; and it reads nothing behind the first
/// end-of-input token that they hold.
pub struct Parser {
    pub tokens: Vec<Token>,
    pub current: usize,
}

impl Parser {
    /// The models of the parser's tokens.
    pub open spec fn views(&self) -> Seq<TokenView> {
        token_views(self.tokens@)
    }

    /// The token at the cursor.
    pub open spec fn token(&self) -> TokenView {
        token_at(self.views(), self.current as int)
    }

    /// The kind of the token at the cursor.
    pub open spec fn kind(&self) -> TokenType {
        kind_at(self.views(), self.current as int)
    }

    /// The number of tokens from the cursor on.
    pub open spec fn left(&self) -> nat {
        remaining(self.views(), self.current as int)
    }

    /// The position behind the token at the cursor; the end of the input is
    /// never passed.
    pub open spec fn after(&self) -> int {
        if self.kind() == TokenType::Eof {
            self.current as int
        } else {
            self.current + 1
        }
    }

    /// What the rule of the given precedence level yields at the cursor.
    pub open spec fn binary(&self, level: nat) -> Parsed {
        parse_binary(self.views(), self.current as int, level)
    }

    /// Whether the parser has gone from the state `before` to this one as the
    /// grammar says: the tokens are the same; where the grammar yields an
    /// expression, this is the result, and the cursor is behind it; where it
    /// yields a failure, the result is the error with the token that the
    /// failure is at, and the cursor is at that token.
    pub open spec fn follows(
        &self,
        before: &Parser,
        parsed: Parsed,
        result: Result<Expr, ParseError>,
    ) -> bool {
        &&& self.tokens == before.tokens
        &&& match parsed {
            Parsed::Expression { expr, next } => {
                &&& result matches Ok(e)
                &&& e@ == expr
                &&& self.current == next
            },
            Parsed::Failure { at, message } => {
                &&& result matches Err(e)
                &&& e@ == (ParseErrorView { token: token_at(before.views(), at), message })
                &&& self.current == at
            },
        }
    }

    /// A parser at the first of the given tokens.
    pub fn new(tokens: Vec<Token>) -> (parser: Self)
        ensures
            parser.tokens == tokens,
            parser.current == 0,
    {
        Self { tokens, current: 0 }
    }

    /// Parses an expression from the cursor on.
    fn expression(&mut self) -> (result: Result<Expr, ParseError>)
        ensures
            final(self).follows(old(self), old(self).binary(equality_level()), result),
        decreases old(self).left(), 5nat, 1nat,
    {
        self.equality()
    }

    /// Parses a chain of `!=` and `==`.
    fn equality(&mut self) -> (result: Result<Expr, ParseError>)
        ensures
            final(self).follows(old(self), old(self).binary(equality_level()), result),
        decreases old(self).left(), 5nat, 0nat,
    {
        let mut expr = match self.comparison() {
            Ok(expr) => expr,
            Err(error) => {
                return Err(error);
            },
        };
        proof {
            lemma_binary_advances(old(self).views(), old(self).current as int, comparison_level());
        }
        while self.match_token(vec![TokenType::BangEqual, TokenType::EqualEqual])
            invariant
                self.tokens == old(self).tokens,
                old(self).current < self.current <= self.tokens.len(),
                old(self).binary(equality_level()) == parse_operators(
                    self.views(),
                    expr@,
                    self.current as int,
                    equality_level(),
                ),
            decreases self.left(),
        {
            let operator = self.previous();
            proof {
                lemma_binary_advances(self.views(), self.current as int, comparison_level());
            }
            let right = match self.comparison() {
                Ok(right) => right,
                Err(error) => {
                    return Err(error);
                },
            };
            expr = Expr::Binary(Binary { left: Box::new(expr), operator, right: Box::new(right) });
        }
        Ok(expr)
    }

    /// Consumes the token at the cursor if its kind is one of the given.
    fn match_token(&mut self, kinds: Vec<TokenType>) -> (matched: bool)
        ensures
            final(self).tokens == old(self).tokens,
            matched == (old(self).kind() != TokenType::Eof && kinds@.contains(old(self).kind())),
            matched ==> old(self).current < old(self).tokens.len(),
            final(self).current == if matched {
                old(self).current + 1
            } else {
                old(self).current as int
            },
    {
        let mut i: usize = 0;
        while i < kinds.len()
            invariant
                *self == *old(self),
                i <= kinds.len(),
                forall|j: int|
                    0 <= j < i ==> !(self.kind() != TokenType::Eof && kinds@[j] == self.kind()),
            decreases kinds.len() - i,
        {
            if self.check(kinds[i]) {
                self.advance();
                return true;
            }
            i += 1;
        }
        false
    }

    /// Whether the token at the cursor is of the given kind and not the end
    /// of the input.
    fn check(&self, token_type: TokenType) -> (found: bool)
        ensures
            found == (self.kind() != TokenType::Eof && self.kind() == token_type),
    {
        if self.is_at_end() {
            return false;
        }
        self.peek_type() == token_type
    }

    /// Moves the cursor past the token it is at, unless that is the end of
    /// the input, and returns the token before the cursor.
    fn advance(&mut self) -> (token: Token)
        ensures
            final(self).tokens == old(self).tokens,
            final(self).current == old(self).after(),
            old(self).kind() != TokenType::Eof ==> old(self).current < old(self).tokens.len(),
            token@ == token_at(old(self).views(), old(self).after() - 1),
    {
        if !self.is_at_end() {
            assert(self.current < self.views().len() == self.tokens.len());
            self.current = self.current + 1;
        }
        self.previous()
    }

    /// Whether the cursor is at the end of the input.
    fn is_at_end(&self) -> (at_end: bool)
        ensures
            at_end == (self.kind() == TokenType::Eof),
    {
        self.peek_type() == TokenType::Eof
    }

    /// The kind of the token at the cursor.
    fn peek_type(&self) -> (token_type: TokenType)
        ensures
            token_type == self.kind(),
    {
        if self.current < self.tokens.len() {
            self.tokens[self.current].token_type
        } else {
            TokenType::Eof
        }
    }

    /// The end-of-input token that stands for a position outside the tokens.
    fn outside() -> (token: Token)
        ensures
            token@ == eof_token(0),
    {
        Token {
            token_type: TokenType::Eof,
            lexeme: String::new(),
            literal: LiteralValue::Nil,
            line: 0,
        }
    }

    /// The token at the cursor.
    fn peek(&self) -> (token: Token)
        ensures
            token@ == self.token(),
    {
        if self.current < self.tokens.len() {
            self.tokens[self.current].clone()
        } else {
            Self::outside()
        }
    }

    /// The token before the cursor.
    fn previous(&self) -> (token: Token)
        ensures
            token@ == token_at(self.views(), self.current - 1),
    {
        if 0 < self.current && self.current <= self.tokens.len() {
            self.tokens[self.current - 1].clone()
        } else {
            Self::outside()
        }
    }

    /// Parses a chain of `>`, `>=`, `<` and `<=`.
    fn comparison(&mut self) -> (result: Result<Expr, ParseError>)
        ensures
            final(self).follows(old(self), old(self).binary(comparison_level()), result),
        decreases old(self).left(), 4nat, 0nat,
    {
        let mut expr = match self.term() {
            Ok(expr) => expr,
            Err(error) => {
                return Err(error);
            },
        };
        proof {
            lemma_binary_advances(old(self).views(), old(self).current as int, term_level());
        }
        while self.match_token(
            vec![
                TokenType::Greater,
                TokenType::GreaterEqual,
                TokenType::Less,
                TokenType::LessEqual,
            ],
        )
            invariant
                self.tokens == old(self).tokens,
                old(self).current < self.current <= self.tokens.len(),
                old(self).binary(comparison_level()) == parse_operators(
                    self.views(),
                    expr@,
                    self.current as int,
                    comparison_level(),
                ),
            decreases self.left(),
        {
            let operator = self.previous();
            proof {
                lemma_binary_advances(self.views(), self.current as int, term_level());
            }
            let right = match self.term() {
                Ok(right) => right,
                Err(error) => {
                    return Err(error);
                },
            };
            expr = Expr::Binary(Binary { left: Box::new(expr), operator, right: Box::new(right) });
        }
        Ok(expr)
    }

    /// Parses a chain of `-` and `+`.
    fn term(&mut self) -> (result: Result<Expr, ParseError>)
        ensures
            final(self).follows(old(self), old(self).binary(term_level()), result),
        decreases old(self).left(), 3nat, 0nat,
    {
        let mut expr = match self.factor() {
            Ok(expr) => expr,
            Err(error) => {
                return Err(error);
            },
        };
        proof {
            lemma_binary_advances(old(self).views(), old(self).current as int, factor_level());
        }
        while self.match_token(vec![TokenType::Minus, TokenType::Plus])
            invariant
                self.tokens == old(self).tokens,
                old(self).current < self.current <= self.tokens.len(),
                old(self).binary(term_level()) == parse_operators(
                    self.views(),
                    expr@,
                    self.current as int,
                    term_level(),
                ),
            decreases self.left(),
        {
            let operator = self.previous();
            proof {
                lemma_binary_advances(self.views(), self.current as int, factor_level());
            }
            let right = match self.factor() {
                Ok(right) => right,
                Err(error) => {
                    return Err(error);
                },
            };
            expr = Expr::Binary(Binary { left: Box::new(expr), operator, right: Box::new(right) });
        }
        Ok(expr)
    }

    /// Parses a chain of `/` and `*`.
    fn factor(&mut self) -> (result: Result<Expr, ParseError>)
        ensures
            final(self).follows(old(self), old(self).binary(factor_level()), result),
        decreases old(self).left(), 2nat, 0nat,
    {
        let mut expr = match self.unary() {
            Ok(expr) => expr,
            Err(error) => {
                return Err(error);
            },
        };
        proof {
            lemma_binary_advances(old(self).views(), old(self).current as int, unary_level());
        }
        while self.match_token(vec![TokenType::Slash, TokenType::Star])
            invariant
                self.tokens == old(self).tokens,
                old(self).current < self.current <= self.tokens.len(),
                old(self).binary(factor_level()) == parse_operators(
                    self.views(),
                    expr@,
                    self.current as int,
                    factor_level(),
                ),
            decreases self.left(),
        {
            let operator = self.previous();
            proof {
                lemma_binary_advances(self.views(), self.current as int, unary_level());
            }
            let right = match self.unary() {
                Ok(right) => right,
                Err(error) => {
                    return Err(error);
                },
            };
            expr = Expr::Binary(Binary { left: Box::new(expr), operator, right: Box::new(right) });
        }
        Ok(expr)
    }

    /// Parses prefix operators and the primary they apply to.
    fn unary(&mut self) -> (result: Result<Expr, ParseError>)
        ensures
            final(self).follows(
                old(self),
                parse_unary(old(self).views(), old(self).current as int),
                result,
            ),
        decreases old(self).left(), 1nat, 1nat,
    {
        if self.match_token(vec![TokenType::Bang, TokenType::Minus]) {
            let operator = self.previous();
            let right = match self.unary() {
                Ok(right) => right,
                Err(error) => {
                    return Err(error);
                },
            };
            return Ok(Expr::Unary(Unary { operator, right: Box::new(right) }));
        }
        self.primary()
    }

    /// Parses a literal or an expression in parentheses.
    fn primary(&mut self) -> (result: Result<Expr, ParseError>)
        ensures
            final(self).follows(
                old(self),
                parse_primary(old(self).views(), old(self).current as int),
                result,
            ),
        decreases old(self).left(), 1nat, 0nat,
    {
        if self.match_token(vec![TokenType::False]) {
            return Ok(Expr::Literal(Literal { value: LiteralValue::Bool(false) }));
        }
        if self.match_token(vec![TokenType::True]) {
            return Ok(Expr::Literal(Literal { value: LiteralValue::Bool(true) }));
        }
        if self.match_token(vec![TokenType::Nil]) {
            return Ok(Expr::Literal(Literal { value: LiteralValue::Nil }));
        }
        if self.match_token(vec![TokenType::Number, TokenType::String]) {
            return Ok(Expr::Literal(Literal { value: self.previous().literal }));
        }
        if self.match_token(vec![TokenType::LeftParen]) {
            let expr = match self.expression() {
                Ok(expr) => expr,
                Err(error) => {
                    return Err(error);
                },
            };
            match self.consume(TokenType::RightParen, "Expect ')' after expression.".to_owned()) {
                Ok(_) => {},
                Err(error) => {
                    return Err(error);
                },
            }
            return Ok(Expr::Grouping(Grouping { expression: Box::new(expr) }));
        }
        Err(self.error(self.peek(), "Expect expression.".to_owned()))
    }

    /// Consumes the token at the cursor and returns it, if it is of the given
    /// kind; if it is not, that is an error with the given message.
    fn consume(&mut self, token_type: TokenType, message: String) -> (result: Result<
        Token,
        ParseError,
    >)
        ensures
            final(self).tokens == old(self).tokens,
            old(self).kind() != TokenType::Eof && old(self).kind() == token_type ==> {
                &&& result matches Ok(token)
                &&& token@ == old(self).token()
                &&& final(self).current == old(self).current + 1
            },
            !(old(self).kind() != TokenType::Eof && old(self).kind() == token_type) ==> {
                &&& result matches Err(error)
                &&& error@ == (ParseErrorView { token: old(self).token(), message: message@ })
                &&& final(self).current == old(self).current
            },
    {
        if self.check(token_type) {
            return Ok(self.advance());
        }
        Err(self.error(self.peek(), message))
    }

    /// The error for the given token.
    fn error(&self, token: Token, message: String) -> (error: ParseError)
        ensures
            error@ == (ParseErrorView { token: token@, message: message@ }),
    {
        ParseError { token, message }
    }

    /// Skips the token at the cursor, and then goes on to the nearest
    /// position at which a statement has just ended or may begin: the end of
    /// the input, the position behind a semicolon, or that of a keyword that
    /// opens a statement.
    pub fn synchronize(&mut self)
        ensures
            final(self).tokens == old(self).tokens,
            old(self).after() <= final(self).current,
            is_boundary(old(self).views(), final(self).current as int),
            forall|pos: int|
                old(self).after() <= pos < final(self).current ==> !is_boundary(
                    old(self).views(),
                    pos,
                ),
    {
        self.advance();
        loop
            invariant
                self.tokens == old(self).tokens,
                old(self).after() <= self.current,
                forall|pos: int|
                    old(self).after() <= pos < self.current ==> !is_boundary(
                        old(self).views(),
                        pos,
                    ),
            ensures
                is_boundary(old(self).views(), self.current as int),
            decreases self.left(),
        {
            if self.is_at_end() {
                break;
            }
            if self.previous().token_type == TokenType::Semicolon {
                break;
            }
            let kind = self.peek_type();
            if kind == TokenType::Class || kind == TokenType::Fun || kind == TokenType::Var
                || kind == TokenType::For || kind == TokenType::If || kind == TokenType::While
                || kind == TokenType::Print || kind == TokenType::Return {
                break;
            }
            self.advance();
        }
    }

    /// Parses the tokens from the cursor on as one expression.
    ///
    /// On success the cursor is behind the expression, and the expression is
    /// built as precedence and associativity ask. On a parse error no
    /// expression is returned, and the cursor is at the token that the
    /// grammar could not accept.
    pub fn parse(&mut self) -> (result: Result<Expr, ParseError>)
        ensures
            final(self).follows(old(self), old(self).binary(equality_level()), result),
            result matches Ok(expr) ==> respects_precedence(expr@, equality_level()),
    {
        proof {
            lemma_binary_respects_precedence(self.views(), self.current as int, equality_level());
        }
        self.expression()
    }
}

} // verus!
