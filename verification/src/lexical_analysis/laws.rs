//! What holds of every scan.

use super::model::{
    continues, eof_token, is_alpha, is_alphanumeric, keyword_table, lemma_keyword_table,
    lemma_run_end_bounds, lemma_run_on_one_line, lemma_scan_step_advances, line_at, newlines,
    number_end, run_end, scan, scan_from, scan_step, word_kind, Run,
};
use super::{LiteralView, TokenType, TokenView};
use vstd::prelude::*;

verus! {

/// A run holds only characters of its kind, and ends at the end of the
/// source or before a character of another kind.
pub proof fn lemma_run_members(src: Seq<char>, pos: int, run: Run)
    requires
        0 <= pos <= src.len(),
    ensures
        forall|i: int| pos <= i < run_end(src, pos, run) ==> continues(run, #[trigger] src[i]),
        run_end(src, pos, run) == src.len() || !continues(run, src[run_end(src, pos, run)]),
    decreases src.len() - pos,
{
    if pos < src.len() && continues(run, src[pos]) {
        lemma_run_members(src, pos + 1, run);
    }
}

/// A run that meets nothing but characters of its kind goes on to the end of
/// the source.
pub proof fn lemma_run_to_the_end(src: Seq<char>, pos: int, run: Run)
    requires
        0 <= pos <= src.len(),
        forall|i: int| pos <= i < src.len() ==> continues(run, #[trigger] src[i]),
    ensures
        run_end(src, pos, run) == src.len(),
    decreases src.len() - pos,
{
    if pos < src.len() {
        lemma_run_to_the_end(src, pos + 1, run);
    }
}

/// A run within a piece of the source ends where the run in the whole
/// source ends, or at the end of the piece if that comes first.
pub proof fn lemma_run_in_slice(src: Seq<char>, start: int, end: int, pos: int, run: Run)
    requires
        0 <= start <= pos <= end <= src.len(),
    ensures
        run_end(src.subrange(start, end), pos - start, run) + start == if run_end(src, pos, run)
            <= end {
            run_end(src, pos, run)
        } else {
            end
        },
    decreases end - pos,
{
    let slice = src.subrange(start, end);
    lemma_run_end_bounds(src, pos, run);
    if pos < end {
        assert(slice[pos - start] == src[pos]);
        if continues(run, src[pos]) {
            lemma_run_in_slice(src, start, end, pos + 1, run);
        }
    }
}

/// A numeral: one or more digits, optionally followed by a dot and one or
/// more digits.
pub open spec fn is_numeral(text: Seq<char>) -> bool {
    let whole = run_end(text, 0, Run::Digits);
    &&& 0 < whole
    &&& whole < text.len() ==> {
        &&& text[whole] == '.'
        &&& whole + 1 < text.len()
        &&& run_end(text, whole + 1, Run::Digits) == text.len()
    }
}

/// A word: a letter or an underscore, then letters, digits and underscores.
pub open spec fn is_word(text: Seq<char>) -> bool {
    &&& text.len() > 0
    &&& is_alpha(text[0])
    &&& forall|i: int| 0 <= i < text.len() ==> is_alphanumeric(#[trigger] text[i])
}

/// The kinds of the tokens that words are scanned as: `Identifier` and the
/// kinds of the reserved words.
pub open spec fn is_word_kind(kind: TokenType) -> bool {
    match kind {
        TokenType::Identifier
        | TokenType::And
        | TokenType::Class
        | TokenType::Else
        | TokenType::False
        | TokenType::Fun
        | TokenType::For
        | TokenType::If
        | TokenType::Nil
        | TokenType::Or
        | TokenType::Print
        | TokenType::Return
        | TokenType::Super
        | TokenType::This
        | TokenType::True
        | TokenType::Var
        | TokenType::While => true,
        _ => false,
    }
}

/// The payload that belongs to a token of the given kind and lexeme: of a
/// number its numeral, of a string what stands between its quotes, of any
/// other token nothing.
pub open spec fn payload_of(kind: TokenType, lexeme: Seq<char>) -> LiteralView {
    if kind == TokenType::Number {
        LiteralView::Number(lexeme)
    } else if kind == TokenType::String {
        LiteralView::String(lexeme.subrange(1, lexeme.len() - 1))
    } else {
        LiteralView::Nil
    }
}

/// What holds of a token that was scanned from `start`: it is no
/// end-of-input token; its lexeme is the source from `start` to the end of
/// the lexical unit; its line is that of `start`; it is of a word kind
/// exactly if its lexeme is a word, and then of the kind of that word; the
/// lexeme of a number is a numeral, that of a string begins and ends with a
/// double quote; and its payload is the one that belongs to its kind and
/// lexeme.
pub open spec fn scanned_at(src: Seq<char>, start: int, token: TokenView) -> bool {
    let end = scan_step(src, start).end;
    &&& 0 <= start < end <= src.len()
    &&& scan_step(src, start).token == Some(token)
    &&& token.token_type != TokenType::Eof
    &&& token.lexeme == src.subrange(start, end)
    &&& token.line == line_at(src, start)
    &&& is_word_kind(token.token_type) <==> is_word(token.lexeme)
    &&& is_word(token.lexeme) ==> token.token_type == word_kind(token.lexeme)
    &&& token.token_type == TokenType::Number ==> is_numeral(token.lexeme)
    &&& token.token_type == TokenType::String ==> {
        &&& token.lexeme.len() >= 2
        &&& token.lexeme.first() == '"'
        &&& token.lexeme.last() == '"'
    }
    &&& token.literal == payload_of(token.token_type, token.lexeme)
}

/// The lexeme of a number is a numeral.
proof fn lemma_number_is_numeral(src: Seq<char>, start: int)
    requires
        0 <= start < src.len(),
        continues(Run::Digits, src[start]),
    ensures
        is_numeral(src.subrange(start, number_end(src, start))),
{
    let whole = run_end(src, start, Run::Digits);
    let end = number_end(src, start);
    lemma_run_end_bounds(src, start, Run::Digits);
    lemma_run_end_bounds(src, start + 1, Run::Digits);
    if end != whole {
        lemma_run_end_bounds(src, whole + 2, Run::Digits);
    }
    assert(start < whole <= end <= src.len());
    let lexeme = src.subrange(start, end);
    lemma_run_in_slice(src, start, end, start, Run::Digits);
    assert(run_end(lexeme, 0, Run::Digits) == whole - start);
    if end != whole {
        assert(whole + 2 <= end);
        assert(lexeme[whole - start] == src[whole]);
        lemma_run_in_slice(src, start, end, whole + 1, Run::Digits);
    }
}

/// Every token that a lexical unit yields is scanned from where the unit
/// starts.
pub proof fn lemma_step_token(src: Seq<char>, start: int)
    requires
        0 <= start < src.len(),
    ensures
        scan_step(src, start).token matches Some(token) ==> scanned_at(src, start, token),
{
    lemma_scan_step_advances(src, start);
    let step = scan_step(src, start);
    if let Some(token) = step.token {
        let lexeme = src.subrange(start, step.end);
        assert(lexeme[0] == src[start]);
        if token.token_type == TokenType::Number {
            lemma_number_is_numeral(src, start);
        }
        if token.token_type == TokenType::String {
            let close = run_end(src, start + 1, Run::Text);
            lemma_run_end_bounds(src, start + 1, Run::Text);
            lemma_run_members(src, start + 1, Run::Text);
            assert(lexeme.last() == src[close]);
            assert(lexeme.subrange(1, lexeme.len() - 1) =~= src.subrange(start + 1, close));
        }
        if is_alpha(src[start]) {
            lemma_run_members(src, start, Run::Word);
            assert forall|i: int| 0 <= i < lexeme.len() implies is_alphanumeric(
                #[trigger] lexeme[i],
            ) by {
                assert(lexeme[i] == src[start + i]);
            }
        }
    }
}

/// The positions at which the tokens scanned from `pos` on begin.
pub open spec fn token_starts_from(src: Seq<char>, pos: int) -> Seq<int>
    decreases src.len() - pos,
{
    if 0 <= pos < src.len() {
        let step = scan_step(src, pos);
        proof {
            lemma_scan_step_advances(src, pos);
        }
        let rest = token_starts_from(src, step.end);
        if step.token is Some {
            seq![pos] + rest
        } else {
            rest
        }
    } else {
        Seq::empty()
    }
}

/// The positions at which the tokens of a source begin, but for the
/// end-of-input token, which begins nowhere.
pub open spec fn token_starts(src: Seq<char>) -> Seq<int> {
    token_starts_from(src, 0)
}

/// The tokens scanned from `pos` on: each was scanned from its start, the
/// starts are at or after `pos` and in order, no token begins before the one
/// before it has ended, and the end-of-input token on the last line of the
/// source comes last.
pub proof fn lemma_scan_from(src: Seq<char>, pos: int)
    requires
        0 <= pos <= src.len(),
    ensures
        scan_from(src, pos).tokens.len() == token_starts_from(src, pos).len() + 1,
        scan_from(src, pos).tokens.last() == eof_token(line_at(src, src.len() as int)),
        forall|i: int|
            0 <= i < token_starts_from(src, pos).len() ==> pos <= #[trigger] token_starts_from(
                src,
                pos,
            )[i] && scanned_at(src, token_starts_from(src, pos)[i], scan_from(src, pos).tokens[i]),
        forall|i: int|
            0 <= i < token_starts_from(src, pos).len() - 1 ==> scan_step(
                src,
                #[trigger] token_starts_from(src, pos)[i],
            ).end <= token_starts_from(src, pos)[i + 1],
    decreases src.len() - pos,
{
    if pos < src.len() {
        let step = scan_step(src, pos);
        lemma_scan_step_advances(src, pos);
        lemma_step_token(src, pos);
        lemma_scan_from(src, step.end);
        let tokens = scan_from(src, pos).tokens;
        let starts = token_starts_from(src, pos);
        let rest_tokens = scan_from(src, step.end).tokens;
        let rest_starts = token_starts_from(src, step.end);
        if step.token is Some {
            assert(tokens =~= seq![step.token.unwrap()] + rest_tokens);
            assert(starts =~= seq![pos] + rest_starts);
            assert forall|i: int| 0 <= i < starts.len() implies pos <= #[trigger] starts[i]
                && scanned_at(src, starts[i], tokens[i]) by {
                if i > 0 {
                    assert(starts[i] == rest_starts[i - 1]);
                    assert(tokens[i] == rest_tokens[i - 1]);
                }
            }
            assert forall|i: int| 0 <= i < starts.len() - 1 implies scan_step(
                src,
                #[trigger] starts[i],
            ).end <= starts[i + 1] by {
                assert(starts[i + 1] == rest_starts[i]);
                if i > 0 {
                    assert(starts[i] == rest_starts[i - 1]);
                }
            }
        } else {
            assert(tokens =~= rest_tokens);
            assert(starts =~= rest_starts);
        }
    }
}

/// A scan ends with exactly one end-of-input token, and the line of that
/// token is the last line of the source.
pub proof fn lemma_scan_ends_with_eof(src: Seq<char>)
    ensures
        scan(src).tokens.len() >= 1,
        scan(src).tokens.last() == eof_token(line_at(src, src.len() as int)),
        forall|i: int|
            0 <= i < scan(src).tokens.len() - 1 ==> (#[trigger] scan(src).tokens[i]).token_type
                != TokenType::Eof,
{
    lemma_scan_from(src, 0);
    let starts = token_starts(src);
    assert forall|i: int| 0 <= i < scan(src).tokens.len() - 1 implies (#[trigger] scan(
        src,
    ).tokens[i]).token_type != TokenType::Eof by {
        assert(scanned_at(src, starts[i], scan(src).tokens[i]));
    }
}

/// The lexeme of every token but the last is the piece of the source at the
/// position where the token was scanned; the line of the token is the line
/// of that position; and the tokens follow one another in the source
/// without overlap.
pub proof fn lemma_lexemes_are_slices(src: Seq<char>)
    ensures
        token_starts(src).len() == scan(src).tokens.len() - 1,
        forall|i: int|
            0 <= i < token_starts(src).len() ==> {
                let token = #[trigger] scan(src).tokens[i];
                let start = token_starts(src)[i];
                &&& 0 <= start
                &&& token.lexeme.len() > 0
                &&& start + token.lexeme.len() <= src.len()
                &&& token.lexeme == src.subrange(start, start + token.lexeme.len())
                &&& token.line == line_at(src, start)
                &&& i + 1 < token_starts(src).len() ==> start + token.lexeme.len()
                    <= token_starts(src)[i + 1]
            },
{
    lemma_scan_from(src, 0);
    let starts = token_starts(src);
    assert forall|i: int| 0 <= i < starts.len() implies {
        let token = #[trigger] scan(src).tokens[i];
        let start = starts[i];
        &&& 0 <= start
        &&& token.lexeme.len() > 0
        &&& start + token.lexeme.len() <= src.len()
        &&& token.lexeme == src.subrange(start, start + token.lexeme.len())
        &&& token.line == line_at(src, start)
        &&& i + 1 < starts.len() ==> start + token.lexeme.len() <= starts[i + 1]
    } by {
        assert(scanned_at(src, starts[i], scan(src).tokens[i]));
    }
}

/// A token is of a word kind, that is `Identifier` or the kind of a reserved
/// word, exactly if its lexeme is a word; and the kind of such a token is
/// the one that its lexeme alone decides: the kind of the reserved word that
/// the lexeme is, `Identifier` if it is none.
pub proof fn lemma_words_and_keywords(src: Seq<char>)
    ensures
        forall|i: int|
            0 <= i < scan(src).tokens.len() - 1 ==> {
                let token = #[trigger] scan(src).tokens[i];
                &&& is_word_kind(token.token_type) <==> is_word(token.lexeme)
                &&& is_word(token.lexeme) ==> token.token_type == word_kind(token.lexeme)
            },
{
    lemma_scan_from(src, 0);
    let starts = token_starts(src);
    assert forall|i: int| 0 <= i < scan(src).tokens.len() - 1 implies {
        let token = #[trigger] scan(src).tokens[i];
        &&& is_word_kind(token.token_type) <==> is_word(token.lexeme)
        &&& is_word(token.lexeme) ==> token.token_type == word_kind(token.lexeme)
    } by {
        assert(scanned_at(src, starts[i], scan(src).tokens[i]));
    }
}

/// The source that is one word is scanned as one token: of the kind of the
/// reserved word if it is one, an identifier if it is not.
pub proof fn lemma_scan_word(word: Seq<char>)
    requires
        is_word(word),
    ensures
        scan(word).tokens == seq![
            TokenView {
                token_type: word_kind(word),
                lexeme: word,
                literal: LiteralView::Nil,
                line: 1,
            },
            eof_token(1),
        ],
{
    let end = word.len() as int;
    assert forall|i: int| 0 <= i < end implies continues(Run::Word, #[trigger] word[i]) by {
        assert(is_alphanumeric(word[i]));
    }
    lemma_run_to_the_end(word, 0, Run::Word);
    lemma_run_on_one_line(word, 0, Run::Word);
    assert(word.subrange(0, end) =~= word);
    assert(scan_step(word, 0).end == end);
    assert(scan_from(word, end).tokens =~= seq![eof_token(1)]);
    assert(scan(word).tokens =~= seq![
        TokenView { token_type: word_kind(word), lexeme: word, literal: LiteralView::Nil, line: 1 },
        eof_token(1),
    ]);
}

/// The source that is one numeral is scanned as one number token with that
/// numeral as its payload.
pub proof fn lemma_scan_numeral(numeral: Seq<char>)
    requires
        is_numeral(numeral),
    ensures
        scan(numeral).tokens == seq![
            TokenView {
                token_type: TokenType::Number,
                lexeme: numeral,
                literal: LiteralView::Number(numeral),
                line: 1,
            },
            eof_token(1),
        ],
{
    let end = numeral.len() as int;
    let whole = run_end(numeral, 0, Run::Digits);
    lemma_run_end_bounds(numeral, 0, Run::Digits);
    lemma_run_on_one_line(numeral, 0, Run::Digits);
    if whole < end {
        lemma_run_on_one_line(numeral, whole + 1, Run::Digits);
        assert(newlines(numeral, whole + 1) == newlines(numeral, whole));
    }
    assert(number_end(numeral, 0) == end);
    assert(numeral.subrange(0, end) =~= numeral);
    assert(scan_step(numeral, 0).end == end);
    assert(scan_from(numeral, end).tokens =~= seq![eof_token(1)]);
    assert(scan(numeral).tokens =~= seq![
        TokenView {
            token_type: TokenType::Number,
            lexeme: numeral,
            literal: LiteralView::Number(numeral),
            line: 1,
        },
        eof_token(1),
    ]);
}

/// Every reserved word is a word of two letters or more.
pub proof fn lemma_keywords_are_words()
    ensures
        forall|i: int|
            0 <= i < 16 ==> is_word(#[trigger] keyword_table()[i].0) && keyword_table()[i].0.len()
                >= 2,
{
    reveal_strlit("and");
    reveal_strlit("class");
    reveal_strlit("else");
    reveal_strlit("false");
    reveal_strlit("for");
    reveal_strlit("fun");
    reveal_strlit("if");
    reveal_strlit("nil");
    reveal_strlit("or");
    reveal_strlit("print");
    reveal_strlit("return");
    reveal_strlit("super");
    reveal_strlit("this");
    reveal_strlit("true");
    reveal_strlit("var");
    reveal_strlit("while");
    let table = keyword_table();
    assert(is_word(table[0].0) && table[0].0.len() >= 2);
    assert(is_word(table[1].0) && table[1].0.len() >= 2);
    assert(is_word(table[2].0) && table[2].0.len() >= 2);
    assert(is_word(table[3].0) && table[3].0.len() >= 2);
    assert(is_word(table[4].0) && table[4].0.len() >= 2);
    assert(is_word(table[5].0) && table[5].0.len() >= 2);
    assert(is_word(table[6].0) && table[6].0.len() >= 2);
    assert(is_word(table[7].0) && table[7].0.len() >= 2);
    assert(is_word(table[8].0) && table[8].0.len() >= 2);
    assert(is_word(table[9].0) && table[9].0.len() >= 2);
    assert(is_word(table[10].0) && table[10].0.len() >= 2);
    assert(is_word(table[11].0) && table[11].0.len() >= 2);
    assert(is_word(table[12].0) && table[12].0.len() >= 2);
    assert(is_word(table[13].0) && table[13].0.len() >= 2);
    assert(is_word(table[14].0) && table[14].0.len() >= 2);
    assert(is_word(table[15].0) && table[15].0.len() >= 2);
}

/// Every word kind is the kind of some word: each keyword kind that of its
/// reserved word, `Identifier` that of any other word. So the kinds of the
/// tokens that words are scanned as are exactly the word kinds.
pub proof fn lemma_every_word_kind_occurs(kind: TokenType)
    requires
        is_word_kind(kind),
    ensures
        exists|word: Seq<char>| is_word(word) && word_kind(word) == kind,
{
    lemma_keyword_table();
    lemma_keywords_are_words();
    let table = keyword_table();
    if kind == TokenType::Identifier {
        let word = seq!['x'];
        assert(is_word(word));
        assert forall|i: int| 0 <= i < 16 implies #[trigger] table[i].0 != word by {
            assert(table[i].0.len() >= 2);
        }
        assert(word_kind(word) == kind);
    } else {
        let i: int = if kind == TokenType::And {
            0
        } else if kind == TokenType::Class {
            1
        } else if kind == TokenType::Else {
            2
        } else if kind == TokenType::False {
            3
        } else if kind == TokenType::For {
            4
        } else if kind == TokenType::Fun {
            5
        } else if kind == TokenType::If {
            6
        } else if kind == TokenType::Nil {
            7
        } else if kind == TokenType::Or {
            8
        } else if kind == TokenType::Print {
            9
        } else if kind == TokenType::Return {
            10
        } else if kind == TokenType::Super {
            11
        } else if kind == TokenType::This {
            12
        } else if kind == TokenType::True {
            13
        } else if kind == TokenType::Var {
            14
        } else {
            15
        };
        assert(table[i].1 == kind);
        assert(is_word(table[i].0) && word_kind(table[i].0) == kind);
    }
}

} // verus!
