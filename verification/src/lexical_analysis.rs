//! Tokens and the lexer that produces them.

use crate::{error, report_text};
use vstd::prelude::*;

pub mod laws;
pub mod model;

use laws::lemma_scan_ends_with_eof;
use model::{
    char_at, eof_token, is_alpha, is_alphanumeric, is_digit, items, keyword_kind, keyword_table,
    lemma_keyword_table, lemma_newlines_bound, lemma_newlines_monotonic,
    lemma_scan_step_advances, line_at, newlines, run_end, scan, scan_from, scan_step, Run,
};

verus! {

/// The closed set of token kinds.
#[derive(Clone, Copy, Debug, PartialEq, Eq, Structural)]
pub enum TokenType {
    // Single-character tokens.
    LeftParen,
    RightParen,
    LeftBrace,
    RightBrace,
    Comma,
    Dot,
    Minus,
    Plus,
    Semicolon,
    Slash,
    Star,
    // One or two character tokens.
    Bang,
    BangEqual,
    Equal,
    EqualEqual,
    Greater,
    GreaterEqual,
    Less,
    LessEqual,
    // Literals.
    Identifier,
    String,
    Number,
    // Keywords.
    And,
    Class,
    Else,
    False,
    Fun,
    For,
    If,
    Nil,
    Or,
    Print,
    Return,
    Super,
    This,
    True,
    Var,
    While,
    // End of input.
    Eof,
}

/// The payload of a token or of a literal expression.
///
/// A number is held as its decimal numeral, exactly as written in the
/// source: one or more digits, optionally followed by a dot and one or more
/// digits.
#[derive(Debug)]
pub enum LiteralValue {
    Nil,
    Bool(bool),
    Number(String),
    String(String),
}

/// Mathematical model of a [`LiteralValue`].
pub enum LiteralView {
    Nil,
    Bool(bool),
    Number(Seq<char>),
    String(Seq<char>),
}

impl View for LiteralValue {
    type V = LiteralView;

    open spec fn view(&self) -> LiteralView {
        match self {
            LiteralValue::Nil => LiteralView::Nil,
            LiteralValue::Bool(b) => LiteralView::Bool(*b),
            LiteralValue::Number(text) => LiteralView::Number(text@),
            LiteralValue::String(text) => LiteralView::String(text@),
        }
    }
}

impl Clone for LiteralValue {
    fn clone(&self) -> (res: Self)
        ensures
            res@ == self@,
    {
        match self {
            LiteralValue::Nil => LiteralValue::Nil,
            LiteralValue::Bool(b) => LiteralValue::Bool(*b),
            LiteralValue::Number(text) => LiteralValue::Number(text.clone()),
            LiteralValue::String(text) => LiteralValue::String(text.clone()),
        }
    }
}

impl LiteralView {
    /// The text a literal is written as: `nil`, `true`, `false`, the numeral
    /// of a number, the contents of a string.
    pub open spec fn text(self) -> Seq<char> {
        match self {
            LiteralView::Nil => "nil"@,
            LiteralView::Bool(b) => if b {
                "true"@
            } else {
                "false"@
            },
            LiteralView::Number(text) => text,
            LiteralView::String(text) => text,
        }
    }

    /// The text of the payload of a token: nothing where there is none.
    pub open spec fn payload_text(self) -> Seq<char> {
        match self {
            LiteralView::Nil => Seq::empty(),
            _ => self.text(),
        }
    }
}

impl LiteralValue {
    /// The text a literal is written as.
    pub fn text(&self) -> (text: String)
        ensures
            text@ == self@.text(),
    {
        match self {
            LiteralValue::Nil => "nil".to_owned(),
            LiteralValue::Bool(b) => if *b {
                "true".to_owned()
            } else {
                "false".to_owned()
            },
            LiteralValue::Number(text) => text.clone(),
            LiteralValue::String(text) => text.clone(),
        }
    }
}

/// A lexical unit of the source.
#[derive(Debug)]
pub struct Token {
    pub token_type: TokenType,
    /// The exact piece of source the token was scanned from; empty for `Eof`.
    pub lexeme: String,
    /// `String` for a string token, `Number` for a number token, else `Nil`.
    pub literal: LiteralValue,
    /// The 1-based line on which the token begins.
    pub line: usize,
}

/// Mathematical model of a [`Token`].
pub struct TokenView {
    pub token_type: TokenType,
    pub lexeme: Seq<char>,
    pub literal: LiteralView,
    pub line: nat,
}

impl View for Token {
    type V = TokenView;

    open spec fn view(&self) -> TokenView {
        TokenView {
            token_type: self.token_type,
            lexeme: self.lexeme@,
            literal: self.literal@,
            line: self.line as nat,
        }
    }
}

impl Clone for Token {
    fn clone(&self) -> (res: Self)
        ensures
            res@ == self@,
    {
        Token {
            token_type: self.token_type,
            lexeme: self.lexeme.clone(),
            literal: self.literal.clone(),
            line: self.line,
        }
    }
}

impl TokenView {
    /// The lexeme and the payload of a token, with a space between them.
    pub open spec fn text(self) -> Seq<char> {
        self.lexeme + " "@ + self.literal.payload_text()
    }
}

impl Token {
    /// The lexeme and the payload of the token, with a space between them.
    pub fn to_string(&self) -> (text: String)
        ensures
            text@ == self@.text(),
    {
        let mut text = self.lexeme.clone();
        text.append(" ");
        match &self.literal {
            LiteralValue::Nil => {},
            literal => {
                text.append(literal.text().as_str());
            },
        }
        proof {
            assert(text@ =~= self@.text());
        }
        text
    }
}

/// The models of a sequence of tokens, in order.
pub open spec fn token_views(tokens: Seq<Token>) -> Seq<TokenView> {
    Seq::new(tokens.len(), |i: int| tokens[i]@)
}

/// What the lexer can object to.
#[derive(Clone, Copy, Debug, PartialEq, Eq, Structural)]
pub enum LexicalErrorKind {
    UnexpectedCharacter,
    UnterminatedString,
}

impl LexicalErrorKind {
    /// The message that describes an error of this kind.
    pub open spec fn message_text(self) -> Seq<char> {
        match self {
            LexicalErrorKind::UnexpectedCharacter => "Unexpected character"@,
            LexicalErrorKind::UnterminatedString => "Unterminated string."@,
        }
    }

    /// The message that describes an error of this kind.
    pub fn message(&self) -> (text: String)
        ensures
            text@ == self.message_text(),
    {
        match self {
            LexicalErrorKind::UnexpectedCharacter => "Unexpected character".to_owned(),
            LexicalErrorKind::UnterminatedString => "Unterminated string.".to_owned(),
        }
    }
}

/// A lexical error: where it was found and what it is.
#[derive(Clone, Copy, Debug, PartialEq, Eq, Structural)]
pub struct LexicalError {
    pub line: usize,
    pub kind: LexicalErrorKind,
}

/// Mathematical model of a [`LexicalError`].
pub struct LexicalErrorView {
    pub line: nat,
    pub kind: LexicalErrorKind,
}

impl View for LexicalError {
    type V = LexicalErrorView;

    open spec fn view(&self) -> LexicalErrorView {
        LexicalErrorView { line: self.line as nat, kind: self.kind }
    }
}

impl LexicalError {
    /// The line that reports the error: `[line: L] Error: <message>`.
    pub fn report(&self) -> (text: String)
        ensures
            text@ == report_text(self.line as nat, Seq::empty(), self.kind.message_text()),
    {
        error(self.line, self.kind.message())
    }
}

/// The models of a sequence of lexical errors, in order.
pub open spec fn error_views(errors: Seq<LexicalError>) -> Seq<LexicalErrorView> {
    Seq::new(errors.len(), |i: int| errors[i]@)
}

/// The characters of a string, one by one.
fn characters(text: &str) -> (chars: Vec<char>)
    ensures
        chars@ == text@,
{
    let mut chars: Vec<char> = Vec::new();
    for c in it: text.chars()
        invariant
            chars@ == it.seq().take(it.index() as int),
    {
        chars.push(c);
    }
    chars
}

/// The reserved words of a keyword table, each with its kind.
pub open spec fn keyword_views(keywords: Seq<(String, TokenType)>) -> Seq<(Seq<char>, TokenType)> {
    Seq::new(keywords.len(), |i: int| (keywords[i].0@, keywords[i].1))
}

/// A sequence with one more item at its end, or as it is.
spec fn with_item<T>(sequence: Seq<T>, item: Option<T>) -> Seq<T> {
    match item {
        Some(t) => sequence.push(t),
        None => sequence,
    }
}

/// Adding a token to a sequence adds its model to the models.
proof fn lemma_token_views_push(tokens: Seq<Token>, token: Token)
    ensures
        token_views(tokens.push(token)) == token_views(tokens).push(token@),
{
    assert(token_views(tokens.push(token)) =~= token_views(tokens).push(token@));
}

/// Adding an error to a sequence adds its model to the models.
proof fn lemma_error_views_push(errors: Seq<LexicalError>, error: LexicalError)
    ensures
        error_views(errors.push(error)) == error_views(errors).push(error@),
{
    assert(error_views(errors.push(error)) =~= error_views(errors).push(error@));
}

/// The lexer: a source text, a cursor into it, and the tokens and errors
/// found so far.
pub struct Lexer {
    source: String,
    /// The characters of the source, and a NUL behind them.
    chars: Vec<char>,
    tokens: Vec<Token>,
    errors: Vec<LexicalError>,
    start: usize,
    current: usize,
    line: usize,
    keywords: Vec<(String, TokenType)>,
}

/// Mathematical model of a [`Lexer`]: its source text, and the tokens and
/// lexical errors of its last scan.
pub struct LexerView {
    pub source: Seq<char>,
    pub tokens: Seq<TokenView>,
    pub errors: Seq<LexicalErrorView>,
}

impl View for Lexer {
    type V = LexerView;

    closed spec fn view(&self) -> LexerView {
        LexerView {
            source: self.source@,
            tokens: token_views(self.tokens@),
            errors: error_views(self.errors@),
        }
    }
}

impl Lexer {
    /// The lexer holds its source character by character and knows the
    /// reserved words. Every lexer made by [`Lexer::new`] is well formed, and
    /// stays so.
    pub closed spec fn wf(&self) -> bool {
        &&& self.chars@ == self.source@.push('\0')
        &&& self.source@.len() < usize::MAX
        &&& keyword_views(self.keywords@) == keyword_table()
    }

    /// The cursor lies within a lexical unit that begins at `start`, and the
    /// line counter is that of `start`.
    spec fn in_unit(&self) -> bool {
        &&& self.wf()
        &&& self.start <= self.current <= self.source@.len()
        &&& self.line == line_at(self.source@, self.start as int)
    }

    /// Nothing but the cursor position differs from `before`.
    spec fn moved_from(&self, before: &Lexer) -> bool {
        &&& self.source == before.source
        &&& self.chars == before.chars
        &&& self.keywords == before.keywords
        &&& self.tokens == before.tokens
        &&& self.errors == before.errors
        &&& self.start == before.start
        &&& self.line == before.line
    }

    /// The lexical unit that began at `before.start` has been scanned: the
    /// cursor is behind it, the line counter is that of the cursor, and the
    /// token or error of the unit has been added.
    spec fn stepped_from(&self, before: &Lexer) -> bool {
        let step = scan_step(before.source@, before.start as int);
        &&& self.wf()
        &&& self.source == before.source
        &&& self.chars == before.chars
        &&& self.keywords == before.keywords
        &&& self.current == step.end
        &&& self.line == line_at(self.source@, step.end)
        &&& token_views(self.tokens@) == with_item(token_views(before.tokens@), step.token)
        &&& error_views(self.errors@) == with_item(error_views(before.errors@), step.error)
    }

    /// A lexer for the given source text.
    pub fn new(source: String) -> (lexer: Self)
        ensures
            lexer.wf(),
            lexer@ == (LexerView { source: source@, tokens: Seq::empty(), errors: Seq::empty() }),
    {
        let mut chars = characters(source.as_str());
        chars.push('\0');
        assert(chars.len() <= usize::MAX);
        let mut keywords: Vec<(String, TokenType)> = Vec::new();
        keywords.push(("and".to_owned(), TokenType::And));
        keywords.push(("class".to_owned(), TokenType::Class));
        keywords.push(("else".to_owned(), TokenType::Else));
        keywords.push(("false".to_owned(), TokenType::False));
        keywords.push(("for".to_owned(), TokenType::For));
        keywords.push(("fun".to_owned(), TokenType::Fun));
        keywords.push(("if".to_owned(), TokenType::If));
        keywords.push(("nil".to_owned(), TokenType::Nil));
        keywords.push(("or".to_owned(), TokenType::Or));
        keywords.push(("print".to_owned(), TokenType::Print));
        keywords.push(("return".to_owned(), TokenType::Return));
        keywords.push(("super".to_owned(), TokenType::Super));
        keywords.push(("this".to_owned(), TokenType::This));
        keywords.push(("true".to_owned(), TokenType::True));
        keywords.push(("var".to_owned(), TokenType::Var));
        keywords.push(("while".to_owned(), TokenType::While));
        let tokens: Vec<Token> = Vec::new();
        let errors: Vec<LexicalError> = Vec::new();
        proof {
            assert(keyword_views(keywords@) =~= keyword_table());
            assert(token_views(tokens@) =~= Seq::empty());
            assert(error_views(errors@) =~= Seq::empty());
        }
        Lexer { source, chars, tokens, errors, start: 0, current: 0, line: 1, keywords }
    }

    /// The tokens of the last scan.
    pub fn tokens(&self) -> (tokens: &Vec<Token>)
        ensures
            token_views(tokens@) == self@.tokens,
    {
        &self.tokens
    }

    /// The lexical errors of the last scan, in the order they were met.
    pub fn errors(&self) -> (errors: &Vec<LexicalError>)
        ensures
            error_views(errors@) == self@.errors,
    {
        &self.errors
    }

    /// Scans the whole source from its beginning, whatever was scanned
    /// before. Afterwards the lexer holds the tokens of the source, the last
    /// of them the end-of-input token on the last line, and the lexical
    /// errors met on the way. Returns the tokens.
    pub fn scan_tokens(&mut self) -> (tokens: &Vec<Token>)
        requires
            old(self).wf(),
        ensures
            final(self).wf(),
            final(self)@.source == old(self)@.source,
            final(self)@.tokens == scan(old(self)@.source).tokens,
            final(self)@.errors == scan(old(self)@.source).errors,
            final(self)@.tokens.len() >= 1,
            final(self)@.tokens.last() == eof_token(
                line_at(old(self)@.source, old(self)@.source.len() as int),
            ),
            token_views(tokens@) == final(self)@.tokens,
    {
        proof {
            lemma_scan_ends_with_eof(self.source@);
        }
        self.tokens = Vec::new();
        self.errors = Vec::new();
        self.start = 0;
        self.current = 0;
        self.line = 1;
        proof {
            assert(token_views(self.tokens@) =~= Seq::empty());
            assert(error_views(self.errors@) =~= Seq::empty());
            assert(scan(self.source@).tokens =~= token_views(self.tokens@) + scan_from(
                self.source@,
                0,
            ).tokens);
            assert(scan(self.source@).errors =~= error_views(self.errors@) + scan_from(
                self.source@,
                0,
            ).errors);
        }
        while !self.is_at_end()
            invariant
                self.wf(),
                self.source == old(self).source,
                self.current <= self.source@.len(),
                self.line == line_at(self.source@, self.current as int),
                scan(self.source@).tokens == token_views(self.tokens@) + scan_from(
                    self.source@,
                    self.current as int,
                ).tokens,
                scan(self.source@).errors == error_views(self.errors@) + scan_from(
                    self.source@,
                    self.current as int,
                ).errors,
            decreases self.source@.len() - self.current,
        {
            self.start = self.current;
            let ghost before = *self;
            self.scan_token();
            proof {
                let src = self.source@;
                let step = scan_step(src, before.start as int);
                let rest = scan_from(src, step.end);
                lemma_scan_step_advances(src, before.start as int);
                assert(with_item(token_views(before.tokens@), step.token) + rest.tokens
                    =~= token_views(before.tokens@) + (items(step.token) + rest.tokens));
                assert(with_item(error_views(before.errors@), step.error) + rest.errors
                    =~= error_views(before.errors@) + (items(step.error) + rest.errors));
            }
        }
        self.append_eof_token();
        &self.tokens
    }

    /// Adds the end-of-input token, on the line that the scan ended on.
    fn append_eof_token(&mut self)
        requires
            old(self).wf(),
        ensures
            final(self).wf(),
            final(self).source == old(self).source,
            final(self).chars == old(self).chars,
            final(self).errors == old(self).errors,
            token_views(final(self).tokens@) == token_views(old(self).tokens@).push(
                eof_token(old(self).line as nat),
            ),
    {
        let token = Token {
            token_type: TokenType::Eof,
            lexeme: String::new(),
            literal: LiteralValue::Nil,
            line: self.line,
        };
        proof {
            lemma_token_views_push(self.tokens@, token);
        }
        self.tokens.push(token);
    }

    /// Whether the cursor is at the end of the source.
    fn is_at_end(&self) -> (at_end: bool)
        requires
            self.wf(),
            self.current <= self.source@.len(),
        ensures
            at_end == (self.current >= self.source@.len()),
    {
        self.current + 1 >= self.chars.len()
    }

    /// Scans the lexical unit that begins at the cursor.
    fn scan_token(&mut self)
        requires
            old(self).in_unit(),
            old(self).start == old(self).current,
            old(self).current < old(self).source@.len(),
        ensures
            final(self).stepped_from(old(self)),
    {
        proof {
            lemma_newlines_bound(self.source@, self.start + 1);
        }
        let character = self.advance();
        if character == '(' {
            self.add_empty_token(TokenType::LeftParen);
        } else if character == ')' {
            self.add_empty_token(TokenType::RightParen);
        } else if character == '{' {
            self.add_empty_token(TokenType::LeftBrace);
        } else if character == '}' {
            self.add_empty_token(TokenType::RightBrace);
        } else if character == ',' {
            self.add_empty_token(TokenType::Comma);
        } else if character == '.' {
            self.add_empty_token(TokenType::Dot);
        } else if character == '-' {
            self.add_empty_token(TokenType::Minus);
        } else if character == '+' {
            self.add_empty_token(TokenType::Plus);
        } else if character == ';' {
            self.add_empty_token(TokenType::Semicolon);
        } else if character == '*' {
            self.add_empty_token(TokenType::Star);
        } else if character == '!' {
            if self.match_character('=') {
                self.add_empty_token(TokenType::BangEqual);
            } else {
                self.add_empty_token(TokenType::Bang);
            }
        } else if character == '=' {
            if self.match_character('=') {
                self.add_empty_token(TokenType::EqualEqual);
            } else {
                self.add_empty_token(TokenType::Equal);
            }
        } else if character == '<' {
            if self.match_character('=') {
                self.add_empty_token(TokenType::LessEqual);
            } else {
                self.add_empty_token(TokenType::Less);
            }
        } else if character == '>' {
            if self.match_character('=') {
                self.add_empty_token(TokenType::GreaterEqual);
            } else {
                self.add_empty_token(TokenType::Greater);
            }
        } else if character == '/' {
            if self.match_character('/') {
                assert(newlines(self.source@, self.start + 1) == newlines(
                    self.source@,
                    self.start as int,
                ));
                while self.peek() != '\n' && !self.is_at_end()
                    invariant
                        self.moved_from(old(self)),
                        self.wf(),
                        old(self).start + 2 <= self.current <= self.source@.len(),
                        run_end(self.source@, self.current as int, Run::Comment) == run_end(
                            self.source@,
                            old(self).start + 2,
                            Run::Comment,
                        ),
                        newlines(self.source@, self.current as int) == newlines(
                            self.source@,
                            old(self).start as int,
                        ),
                    decreases self.source@.len() - self.current,
                {
                    self.advance();
                }
            } else {
                self.add_empty_token(TokenType::Slash);
            }
        } else if character == ' ' || character == '\r' || character == '\t' {
        } else if character == '"' {
            self.string();
        } else if character == '\n' {
            self.line += 1;
        } else if Self::is_digit(character) {
            self.number();
        } else if Self::is_alpha(character) {
            self.identifier();
        } else {
            self.error(LexicalErrorKind::UnexpectedCharacter);
        }
    }

    /// Records a lexical error on the current line.
    fn error(&mut self, kind: LexicalErrorKind)
        ensures
            final(self).source == old(self).source,
            final(self).chars == old(self).chars,
            final(self).keywords == old(self).keywords,
            final(self).tokens == old(self).tokens,
            final(self).start == old(self).start,
            final(self).current == old(self).current,
            final(self).line == old(self).line,
            error_views(final(self).errors@) == error_views(old(self).errors@).push(
                LexicalErrorView { line: old(self).line as nat, kind },
            ),
    {
        let error = LexicalError { line: self.line, kind };
        proof {
            lemma_error_views_push(self.errors@, error);
        }
        self.errors.push(error);
    }

    /// Consumes the character at the cursor and returns it.
    fn advance(&mut self) -> (character: char)
        requires
            old(self).wf(),
            old(self).current < old(self).source@.len(),
        ensures
            final(self).moved_from(old(self)),
            final(self).current == old(self).current + 1,
            character == old(self).source@[old(self).current as int],
    {
        let next_character = self.chars[self.current];
        self.current += 1;
        next_character
    }

    /// Adds a token without a payload.
    fn add_empty_token(&mut self, token_type: TokenType)
        requires
            old(self).in_unit(),
        ensures
            final(self).added_from(old(self), token_type, LiteralView::Nil),
    {
        self.add_token(token_type, LiteralValue::Nil);
    }

    /// A token for the text between `start` and the cursor has been added.
    spec fn added_from(&self, before: &Lexer, token_type: TokenType, literal: LiteralView) -> bool {
        &&& self.source == before.source
        &&& self.chars == before.chars
        &&& self.keywords == before.keywords
        &&& self.errors == before.errors
        &&& self.start == before.start
        &&& self.current == before.current
        &&& self.line == before.line
        &&& token_views(self.tokens@) == token_views(before.tokens@).push(
            TokenView {
                token_type,
                lexeme: before.source@.subrange(before.start as int, before.current as int),
                literal,
                line: before.line as nat,
            },
        )
    }

    /// Adds a token for the text between `start` and the cursor.
    fn add_token(&mut self, token_type: TokenType, literal: LiteralValue)
        requires
            old(self).in_unit(),
        ensures
            final(self).added_from(old(self), token_type, literal@),
    {
        let token = Token { token_type, lexeme: self.text(), literal, line: self.line };
        proof {
            lemma_token_views_push(self.tokens@, token);
        }
        self.tokens.push(token);
    }

    /// The source text between `start` and the cursor.
    fn text(&self) -> (text: String)
        requires
            self.in_unit(),
        ensures
            text@ == self.source@.subrange(self.start as int, self.current as int),
    {
        self.source.as_str().substring_char(self.start, self.current).to_owned()
    }

    /// Consumes the character at the cursor if it is the expected one.
    fn match_character(&mut self, expected: char) -> (matched: bool)
        requires
            old(self).wf(),
            old(self).current <= old(self).source@.len(),
        ensures
            final(self).moved_from(old(self)),
            matched == (old(self).current < old(self).source@.len() && old(self).source@[old(
                self,
            ).current as int] == expected),
            final(self).current == if matched {
                old(self).current + 1
            } else {
                old(self).current as int
            },
    {
        if self.is_at_end() || self.chars[self.current] != expected {
            return false;
        }
        self.current += 1;
        true
    }

    /// The character at the cursor, NUL at the end of the source.
    fn peek(&self) -> (character: char)
        requires
            self.wf(),
            self.current <= self.source@.len(),
        ensures
            character == char_at(self.source@, self.current as int),
    {
        self.chars[self.current]
    }

    /// Scans a string literal whose opening quote has been consumed. The
    /// newlines within the literal are counted apart and added to the line
    /// counter at the end, so that the token gets the line it begins on.
    fn string(&mut self)
        requires
            old(self).in_unit(),
            old(self).current == old(self).start + 1,
            old(self).source@[old(self).start as int] == '"',
        ensures
            final(self).stepped_from(old(self)),
    {
        let mut lines: usize = 0;
        while self.peek() != '"' && !self.is_at_end()
            invariant
                self.moved_from(old(self)),
                self.wf(),
                old(self).start + 1 <= self.current <= self.source@.len(),
                run_end(self.source@, self.current as int, Run::Text) == run_end(
                    self.source@,
                    old(self).start + 1,
                    Run::Text,
                ),
                newlines(self.source@, self.current as int) == newlines(
                    self.source@,
                    old(self).start as int,
                ) + lines,
            decreases self.source@.len() - self.current,
        {
            proof {
                lemma_newlines_bound(self.source@, self.current + 1);
            }
            if self.peek() == '\n' {
                lines += 1;
            }
            self.advance();
        }
        proof {
            lemma_newlines_bound(self.source@, self.source@.len() as int);
            lemma_newlines_monotonic(self.source@, self.current as int, self.source@.len() as int);
        }
        if self.is_at_end() {
            self.line += lines;
            self.error(LexicalErrorKind::UnterminatedString);
            return;
        }
        self.advance();
        let text = self.source.as_str().substring_char(self.start + 1, self.current - 1).to_owned();
        self.add_token(TokenType::String, LiteralValue::String(text));
        self.line += lines;
    }

    /// Scans a number literal whose first digit has been consumed.
    fn number(&mut self)
        requires
            old(self).in_unit(),
            old(self).current == old(self).start + 1,
            is_digit(old(self).source@[old(self).start as int]),
        ensures
            final(self).stepped_from(old(self)),
    {
        while Self::is_digit(self.peek())
            invariant
                self.moved_from(old(self)),
                self.wf(),
                old(self).start + 1 <= self.current <= self.source@.len(),
                run_end(self.source@, self.current as int, Run::Digits) == run_end(
                    self.source@,
                    old(self).start as int,
                    Run::Digits,
                ),
                newlines(self.source@, self.current as int) == newlines(
                    self.source@,
                    old(self).start as int,
                ),
            decreases self.source@.len() - self.current,
        {
            self.advance();
        }
        if self.peek() == '.' && Self::is_digit(self.peek_next()) {
            let ghost whole = self.current;
            self.advance();
            while Self::is_digit(self.peek())
                invariant
                    self.moved_from(old(self)),
                    self.wf(),
                    whole + 1 <= self.current <= self.source@.len(),
                    run_end(self.source@, self.current as int, Run::Digits) == run_end(
                        self.source@,
                        whole + 1,
                        Run::Digits,
                    ),
                    newlines(self.source@, self.current as int) == newlines(
                        self.source@,
                        old(self).start as int,
                    ),
                decreases self.source@.len() - self.current,
            {
                self.advance();
            }
        }
        let number = self.text();
        self.add_token(TokenType::Number, LiteralValue::Number(number));
    }

    /// Whether a character is a decimal digit.
    fn is_digit(character: char) -> (digit: bool)
        ensures
            digit == is_digit(character),
    {
        '0' <= character && character <= '9'
    }

    /// The character after the one at the cursor, NUL past the end.
    fn peek_next(&self) -> (character: char)
        requires
            self.wf(),
            self.current <= self.source@.len(),
        ensures
            character == char_at(self.source@, self.current + 1),
    {
        if self.current + 1 >= self.chars.len() {
            return '\0';
        }
        self.chars[self.current + 1]
    }

    /// Whether a character can begin a word: a letter or an underscore.
    fn is_alpha(character: char) -> (alpha: bool)
        ensures
            alpha == is_alpha(character),
    {
        ('a' <= character && character <= 'z') || ('A' <= character && character <= 'Z')
            || character == '_'
    }

    /// Whether a character can continue a word.
    fn is_alphanumeric(character: char) -> (alphanumeric: bool)
        ensures
            alphanumeric == is_alphanumeric(character),
    {
        Self::is_alpha(character) || Self::is_digit(character)
    }

    /// Scans an identifier or a keyword whose first character has been
    /// consumed.
    fn identifier(&mut self)
        requires
            old(self).in_unit(),
            old(self).current == old(self).start + 1,
            is_alpha(old(self).source@[old(self).start as int]),
        ensures
            final(self).stepped_from(old(self)),
    {
        while Self::is_alphanumeric(self.peek())
            invariant
                self.moved_from(old(self)),
                self.wf(),
                old(self).start + 1 <= self.current <= self.source@.len(),
                run_end(self.source@, self.current as int, Run::Word) == run_end(
                    self.source@,
                    old(self).start as int,
                    Run::Word,
                ),
                newlines(self.source@, self.current as int) == newlines(
                    self.source@,
                    old(self).start as int,
                ),
            decreases self.source@.len() - self.current,
        {
            self.advance();
        }
        let text = self.text();
        let token_type = match self.keyword(&text) {
            Some(token_type) => token_type,
            None => TokenType::Identifier,
        };
        self.add_empty_token(token_type);
    }

    /// Looks a word up among the reserved words.
    fn keyword(&self, text: &String) -> (kind: Option<TokenType>)
        requires
            self.wf(),
        ensures
            kind == keyword_kind(text@),
    {
        proof {
            lemma_keyword_table();
        }
        let mut i: usize = 0;
        while i < self.keywords.len()
            invariant
                self.wf(),
                i <= self.keywords.len() == 16,
                forall|j: int| 0 <= j < i ==> #[trigger] keyword_table()[j].0 != text@,
            decreases self.keywords.len() - i,
        {
            proof {
                lemma_keyword_table();
            }
            assert(keyword_views(self.keywords@)[i as int] == keyword_table()[i as int]);
            if self.keywords[i].0 == *text {
                return Some(self.keywords[i].1);
            }
            i += 1;
        }
        None
    }
}


} // verus!
