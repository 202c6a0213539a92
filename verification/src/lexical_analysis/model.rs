//! What scanning a source text means: the tokens and errors it yields.

use super::{LexicalErrorKind, LexicalErrorView, LiteralView, TokenType, TokenView};
use vstd::prelude::*;

verus! {

/// Whether a character is a decimal digit.
pub open spec fn is_digit(c: char) -> bool {
    '0' <= c && c <= '9'
}

/// Whether a character can begin a word: a letter or an underscore.
pub open spec fn is_alpha(c: char) -> bool {
    ('a' <= c && c <= 'z') || ('A' <= c && c <= 'Z') || c == '_'
}

/// Whether a character can continue a word: a letter, an underscore or a
/// digit.
pub open spec fn is_alphanumeric(c: char) -> bool {
    is_alpha(c) || is_digit(c)
}

/// The character at `i`, or NUL outside the source.
pub open spec fn char_at(src: Seq<char>, i: int) -> char {
    if 0 <= i < src.len() {
        src[i]
    } else {
        '\0'
    }
}

/// The stretches of characters that the lexer consumes in one go.
pub enum Run {
    /// Decimal digits.
    Digits,
    /// Letters, digits and underscores.
    Word,
    /// Anything up to the end of the line.
    Comment,
    /// Anything up to a double quote.
    Text,
}

/// Whether `c` belongs to a run of the given kind.
pub open spec fn continues(run: Run, c: char) -> bool {
    match run {
        Run::Digits => is_digit(c),
        Run::Word => is_alphanumeric(c),
        Run::Comment => c != '\n',
        Run::Text => c != '"',
    }
}

/// Where the longest run that starts at `pos` ends: the first position at or
/// after `pos` that is the end of the source or holds a character outside
/// the run.
pub open spec fn run_end(src: Seq<char>, pos: int, run: Run) -> int
    decreases src.len() - pos,
{
    if 0 <= pos < src.len() && continues(run, src[pos]) {
        run_end(src, pos + 1, run)
    } else {
        pos
    }
}

/// The number of newline characters among the first `pos` characters.
pub open spec fn newlines(src: Seq<char>, pos: int) -> nat
    decreases pos,
{
    if pos <= 0 {
        0
    } else if src[pos - 1] == '\n' {
        newlines(src, pos - 1) + 1
    } else {
        newlines(src, pos - 1)
    }
}

/// The 1-based line that position `pos` lies on.
pub open spec fn line_at(src: Seq<char>, pos: int) -> nat {
    newlines(src, pos) + 1
}

/// The kind of a reserved word, if `text` is one.
pub open spec fn keyword_kind(text: Seq<char>) -> Option<TokenType> {
    if text == "and"@ {
        Some(TokenType::And)
    } else if text == "class"@ {
        Some(TokenType::Class)
    } else if text == "else"@ {
        Some(TokenType::Else)
    } else if text == "false"@ {
        Some(TokenType::False)
    } else if text == "for"@ {
        Some(TokenType::For)
    } else if text == "fun"@ {
        Some(TokenType::Fun)
    } else if text == "if"@ {
        Some(TokenType::If)
    } else if text == "nil"@ {
        Some(TokenType::Nil)
    } else if text == "or"@ {
        Some(TokenType::Or)
    } else if text == "print"@ {
        Some(TokenType::Print)
    } else if text == "return"@ {
        Some(TokenType::Return)
    } else if text == "super"@ {
        Some(TokenType::Super)
    } else if text == "this"@ {
        Some(TokenType::This)
    } else if text == "true"@ {
        Some(TokenType::True)
    } else if text == "var"@ {
        Some(TokenType::Var)
    } else if text == "while"@ {
        Some(TokenType::While)
    } else {
        None
    }
}

/// The reserved words with their kinds.
pub open spec fn keyword_table() -> Seq<(Seq<char>, TokenType)> {
    seq![
        ("and"@, TokenType::And),
        ("class"@, TokenType::Class),
        ("else"@, TokenType::Else),
        ("false"@, TokenType::False),
        ("for"@, TokenType::For),
        ("fun"@, TokenType::Fun),
        ("if"@, TokenType::If),
        ("nil"@, TokenType::Nil),
        ("or"@, TokenType::Or),
        ("print"@, TokenType::Print),
        ("return"@, TokenType::Return),
        ("super"@, TokenType::Super),
        ("this"@, TokenType::This),
        ("true"@, TokenType::True),
        ("var"@, TokenType::Var),
        ("while"@, TokenType::While),
    ]
}

/// The kind of the token that a word is scanned as: its keyword kind if it is
/// reserved, `Identifier` otherwise.
pub open spec fn word_kind(text: Seq<char>) -> TokenType {
    match keyword_kind(text) {
        Some(kind) => kind,
        None => TokenType::Identifier,
    }
}

/// The outcome of scanning one lexical unit.
pub struct Step {
    /// The position after the unit.
    pub end: int,
    /// The token it yields, if any.
    pub token: Option<TokenView>,
    /// The error it gives rise to, if any.
    pub error: Option<LexicalErrorView>,
}

/// A step that yields the token of the given kind scanned from `start` to `end`.
pub open spec fn emit(
    src: Seq<char>,
    start: int,
    end: int,
    token_type: TokenType,
    literal: LiteralView,
) -> Step {
    Step {
        end,
        token: Some(
            TokenView {
                token_type,
                lexeme: src.subrange(start, end),
                literal,
                line: line_at(src, start),
            },
        ),
        error: None,
    }
}

/// A step that yields nothing.
pub open spec fn skip(end: int) -> Step {
    Step { end, token: None, error: None }
}

/// A step that reports an error on the line of `pos`.
pub open spec fn fail(src: Seq<char>, end: int, pos: int, kind: LexicalErrorKind) -> Step {
    Step { end, token: None, error: Some(LexicalErrorView { line: line_at(src, pos), kind }) }
}

/// An operator of one character that becomes another when `=` follows.
pub open spec fn operator(
    src: Seq<char>,
    start: int,
    alone: TokenType,
    with_equal: TokenType,
) -> Step {
    if char_at(src, start + 1) == '=' {
        emit(src, start, start + 2, with_equal, LiteralView::Nil)
    } else {
        emit(src, start, start + 1, alone, LiteralView::Nil)
    }
}

/// Where the number that starts at `start` ends: after its digits, and after
/// a dot and further digits if both follow.
pub open spec fn number_end(src: Seq<char>, start: int) -> int {
    let whole = run_end(src, start, Run::Digits);
    if char_at(src, whole) == '.' && is_digit(char_at(src, whole + 1)) {
        run_end(src, whole + 1, Run::Digits)
    } else {
        whole
    }
}

/// Scanning the lexical unit that starts at `start`.
pub open spec fn scan_step(src: Seq<char>, start: int) -> Step
    recommends
        0 <= start < src.len(),
{
    let c = src[start];
    if c == '(' {
        emit(src, start, start + 1, TokenType::LeftParen, LiteralView::Nil)
    } else if c == ')' {
        emit(src, start, start + 1, TokenType::RightParen, LiteralView::Nil)
    } else if c == '{' {
        emit(src, start, start + 1, TokenType::LeftBrace, LiteralView::Nil)
    } else if c == '}' {
        emit(src, start, start + 1, TokenType::RightBrace, LiteralView::Nil)
    } else if c == ',' {
        emit(src, start, start + 1, TokenType::Comma, LiteralView::Nil)
    } else if c == '.' {
        emit(src, start, start + 1, TokenType::Dot, LiteralView::Nil)
    } else if c == '-' {
        emit(src, start, start + 1, TokenType::Minus, LiteralView::Nil)
    } else if c == '+' {
        emit(src, start, start + 1, TokenType::Plus, LiteralView::Nil)
    } else if c == ';' {
        emit(src, start, start + 1, TokenType::Semicolon, LiteralView::Nil)
    } else if c == '*' {
        emit(src, start, start + 1, TokenType::Star, LiteralView::Nil)
    } else if c == '!' {
        operator(src, start, TokenType::Bang, TokenType::BangEqual)
    } else if c == '=' {
        operator(src, start, TokenType::Equal, TokenType::EqualEqual)
    } else if c == '<' {
        operator(src, start, TokenType::Less, TokenType::LessEqual)
    } else if c == '>' {
        operator(src, start, TokenType::Greater, TokenType::GreaterEqual)
    } else if c == '/' {
        if char_at(src, start + 1) == '/' {
            skip(run_end(src, start + 2, Run::Comment))
        } else {
            emit(src, start, start + 1, TokenType::Slash, LiteralView::Nil)
        }
    } else if c == ' ' || c == '\r' || c == '\t' || c == '\n' {
        skip(start + 1)
    } else if c == '"' {
        let close = run_end(src, start + 1, Run::Text);
        if close >= src.len() {
            fail(src, close, close, LexicalErrorKind::UnterminatedString)
        } else {
            emit(
                src,
                start,
                close + 1,
                TokenType::String,
                LiteralView::String(src.subrange(start + 1, close)),
            )
        }
    } else if is_digit(c) {
        let end = number_end(src, start);
        emit(src, start, end, TokenType::Number, LiteralView::Number(src.subrange(start, end)))
    } else if is_alpha(c) {
        let end = run_end(src, start, Run::Word);
        emit(src, start, end, word_kind(src.subrange(start, end)), LiteralView::Nil)
    } else {
        fail(src, start + 1, start, LexicalErrorKind::UnexpectedCharacter)
    }
}

/// The end-of-input token on the given line.
pub open spec fn eof_token(line: nat) -> TokenView {
    TokenView { token_type: TokenType::Eof, lexeme: Seq::empty(), literal: LiteralView::Nil, line }
}

/// The tokens and errors of a source text.
pub struct Scan {
    pub tokens: Seq<TokenView>,
    pub errors: Seq<LexicalErrorView>,
}

/// The sequence of nothing or of one item.
pub open spec fn items<T>(item: Option<T>) -> Seq<T> {
    match item {
        Some(t) => seq![t],
        None => Seq::empty(),
    }
}

/// A run ends at or after its start and within the source.
pub proof fn lemma_run_end_bounds(src: Seq<char>, pos: int, run: Run)
    requires
        0 <= pos <= src.len(),
    ensures
        pos <= run_end(src, pos, run) <= src.len(),
    decreases src.len() - pos,
{
    if pos < src.len() && continues(run, src[pos]) {
        lemma_run_end_bounds(src, pos + 1, run);
    }
}

/// Every lexical unit is at least one character long and ends within the
/// source.
pub proof fn lemma_scan_step_advances(src: Seq<char>, start: int)
    requires
        0 <= start < src.len(),
    ensures
        start < scan_step(src, start).end <= src.len(),
{
    lemma_run_end_bounds(src, start + 1, Run::Text);
    lemma_run_end_bounds(src, start + 1, Run::Digits);
    lemma_run_end_bounds(src, start + 1, Run::Word);
    if start + 2 <= src.len() {
        lemma_run_end_bounds(src, start + 2, Run::Comment);
    }
    let whole = run_end(src, start, Run::Digits);
    if whole + 1 <= src.len() {
        lemma_run_end_bounds(src, whole + 1, Run::Digits);
    }
}

/// Scanning from `pos` to the end of the source: the units in order, then
/// the end-of-input token on the last line.
pub open spec fn scan_from(src: Seq<char>, pos: int) -> Scan
    decreases src.len() - pos,
{
    if 0 <= pos < src.len() {
        let step = scan_step(src, pos);
        proof {
            lemma_scan_step_advances(src, pos);
        }
        let rest = scan_from(src, step.end);
        Scan { tokens: items(step.token) + rest.tokens, errors: items(step.error) + rest.errors }
    } else {
        Scan { tokens: seq![eof_token(line_at(src, src.len() as int))], errors: Seq::empty() }
    }
}

/// Scanning a whole source text.
pub open spec fn scan(src: Seq<char>) -> Scan {
    scan_from(src, 0)
}

/// The table holds each reserved word once, with the kind that
/// `keyword_kind` gives it, and nothing else is reserved.
pub proof fn lemma_keyword_table()
    ensures
        keyword_table().len() == 16,
        forall|i: int|
            0 <= i < 16 ==> keyword_kind(#[trigger] keyword_table()[i].0) == Some(
                keyword_table()[i].1,
            ),
        forall|text: Seq<char>|
            (forall|i: int| 0 <= i < 16 ==> #[trigger] keyword_table()[i].0 != text)
                ==> keyword_kind(text) is None,
{
    reveal_strlit("and");
    reveal_strlit("class");
    reveal_strlit("else");
    reveal_strlit("false");
    reveal_strlit("for");
    reveal_strlit("fun");
    reveal_strlit("if");
    reveal_strlit("nil");
    reveal_strlit("or");
    reveal_strlit("print");
    reveal_strlit("return");
    reveal_strlit("super");
    reveal_strlit("this");
    reveal_strlit("true");
    reveal_strlit("var");
    reveal_strlit("while");
    let table = keyword_table();
    assert(table[0].0 == "and"@);
    assert(table[1].0 == "class"@);
    assert(table[2].0 == "else"@);
    assert(table[3].0 == "false"@);
    assert(table[4].0 == "for"@);
    assert(table[5].0 == "fun"@);
    assert(table[6].0 == "if"@);
    assert(table[7].0 == "nil"@);
    assert(table[8].0 == "or"@);
    assert(table[9].0 == "print"@);
    assert(table[10].0 == "return"@);
    assert(table[11].0 == "super"@);
    assert(table[12].0 == "this"@);
    assert(table[13].0 == "true"@);
    assert(table[14].0 == "var"@);
    assert(table[15].0 == "while"@);
    assert forall|i: int| 0 <= i < 16 implies keyword_kind(#[trigger] keyword_table()[i].0)
        == Some(keyword_table()[i].1) by {
        let word = table[i].0;
        if i == 0 {
            assert(word.len() == 3 && word[0] == 'a');
        } else if i == 1 {
            assert(word.len() == 5 && word[0] == 'c');
        } else if i == 2 {
            assert(word.len() == 4 && word[0] == 'e');
        } else if i == 3 {
            assert(word.len() == 5 && word[0] == 'f');
        } else if i == 4 {
            assert(word.len() == 3 && word[0] == 'f' && word[1] == 'o');
        } else if i == 5 {
            assert(word.len() == 3 && word[0] == 'f' && word[1] == 'u');
        } else if i == 6 {
            assert(word.len() == 2 && word[0] == 'i');
        } else if i == 7 {
            assert(word.len() == 3 && word[0] == 'n');
        } else if i == 8 {
            assert(word.len() == 2 && word[0] == 'o');
        } else if i == 9 {
            assert(word.len() == 5 && word[0] == 'p');
        } else if i == 10 {
            assert(word.len() == 6);
        } else if i == 11 {
            assert(word.len() == 5 && word[0] == 's');
        } else if i == 12 {
            assert(word.len() == 4 && word[0] == 't' && word[1] == 'h');
        } else if i == 13 {
            assert(word.len() == 4 && word[0] == 't' && word[1] == 'r');
        } else if i == 14 {
            assert(word.len() == 3 && word[0] == 'v');
        } else {
            assert(word.len() == 5 && word[0] == 'w');
        }
    }
}

/// No more newlines than characters.
pub proof fn lemma_newlines_bound(src: Seq<char>, pos: int)
    requires
        0 <= pos,
    ensures
        newlines(src, pos) <= pos,
    decreases pos,
{
    if pos > 0 {
        lemma_newlines_bound(src, pos - 1);
    }
}

/// Newlines are counted from left to right: a prefix has no more of them
/// than a longer one.
pub proof fn lemma_newlines_monotonic(src: Seq<char>, a: int, b: int)
    requires
        0 <= a <= b,
    ensures
        newlines(src, a) <= newlines(src, b),
    decreases b - a,
{
    if a < b {
        lemma_newlines_monotonic(src, a, b - 1);
    }
}

/// A run of digits or of word characters holds no newline.
pub proof fn lemma_run_on_one_line(src: Seq<char>, pos: int, run: Run)
    requires
        0 <= pos <= src.len(),
        run is Digits || run is Word,
    ensures
        newlines(src, run_end(src, pos, run)) == newlines(src, pos),
    decreases src.len() - pos,
{
    if pos < src.len() && continues(run, src[pos]) {
        lemma_run_on_one_line(src, pos + 1, run);
    }
}

} // verus!
