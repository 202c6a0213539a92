use lang::lexical_analysis::{Lexer, LexicalError, LexicalErrorKind, LiteralValue, Token, TokenType};

fn scan(source: &str) -> (Vec<Token>, Vec<LexicalError>) {
    let mut lexer = Lexer::new(String::from(source));
    let scanned: Vec<Token> = lexer.scan_tokens().clone();
    assert_eq!(scanned.len(), lexer.tokens().len());
    (scanned, lexer.errors().clone())
}

fn kinds_of(tokens: &[Token]) -> Vec<TokenType> {
    tokens.iter().map(|t| t.token_type).collect()
}

fn lexemes_of(tokens: &[Token]) -> Vec<String> {
    tokens.iter().map(|t| t.lexeme.clone()).collect()
}

fn lines_of(tokens: &[Token]) -> Vec<usize> {
    tokens.iter().map(|t| t.line).collect()
}

#[test]
fn empty_source_is_one_eof() {
    let (tokens, errors) = scan("");
    assert!(errors.is_empty());
    assert_eq!(kinds_of(&tokens), vec![TokenType::Eof]);
    assert_eq!(tokens[0].lexeme, "");
    assert_eq!(tokens[0].line, 1);
    assert!(matches!(tokens[0].literal, LiteralValue::Nil));
}

#[test]
fn scan_ends_with_exactly_one_eof_on_the_last_line() {
    for source in ["1\n2\n", "\n\n\n", "a // b\n\"x\ny\" @ c", "\"open\n\n"] {
        let (tokens, _) = scan(source);
        let newlines = source.chars().filter(|c| *c == '\n').count();
        let last = tokens.last().unwrap();
        assert_eq!(last.token_type, TokenType::Eof);
        assert_eq!(last.line, newlines + 1);
        assert_eq!(last.lexeme, "");
        let eofs = tokens.iter().filter(|t| t.token_type == TokenType::Eof).count();
        assert_eq!(eofs, 1);
    }
}

#[test]
fn scanning_twice_gives_the_same_tokens() {
    let mut lexer = Lexer::new(String::from("1 + 2"));
    let first = kinds_of(lexer.scan_tokens());
    let second = kinds_of(lexer.scan_tokens());
    assert_eq!(first, second);
    assert_eq!(second, vec![TokenType::Number, TokenType::Plus, TokenType::Number, TokenType::Eof]);
}

#[test]
fn single_character_tokens() {
    let (tokens, errors) = scan("(){},.-+;*/");
    assert!(errors.is_empty());
    assert_eq!(
        kinds_of(&tokens),
        vec![
            TokenType::LeftParen,
            TokenType::RightParen,
            TokenType::LeftBrace,
            TokenType::RightBrace,
            TokenType::Comma,
            TokenType::Dot,
            TokenType::Minus,
            TokenType::Plus,
            TokenType::Semicolon,
            TokenType::Star,
            TokenType::Slash,
            TokenType::Eof,
        ]
    );
    assert_eq!(
        lexemes_of(&tokens),
        vec!["(", ")", "{", "}", ",", ".", "-", "+", ";", "*", "/", ""]
    );
}

#[test]
fn one_or_two_character_operators() {
    let (tokens, errors) = scan("! != = == < <= > >=");
    assert!(errors.is_empty());
    assert_eq!(
        kinds_of(&tokens),
        vec![
            TokenType::Bang,
            TokenType::BangEqual,
            TokenType::Equal,
            TokenType::EqualEqual,
            TokenType::Less,
            TokenType::LessEqual,
            TokenType::Greater,
            TokenType::GreaterEqual,
            TokenType::Eof,
        ]
    );
    assert_eq!(lexemes_of(&tokens), vec!["!", "!=", "=", "==", "<", "<=", ">", ">=", ""]);
}

#[test]
fn operators_take_the_longest_match() {
    let (tokens, _) = scan("===!==<==");
    assert_eq!(
        kinds_of(&tokens),
        vec![
            TokenType::EqualEqual,
            TokenType::Equal,
            TokenType::BangEqual,
            TokenType::Equal,
            TokenType::LessEqual,
            TokenType::Equal,
            TokenType::Eof,
        ]
    );
}

#[test]
fn whitespace_is_ignored_and_newlines_count_lines() {
    let (tokens, errors) = scan(" \t\r1\n\n  2\n3");
    assert!(errors.is_empty());
    assert_eq!(
        kinds_of(&tokens),
        vec![TokenType::Number, TokenType::Number, TokenType::Number, TokenType::Eof]
    );
    assert_eq!(lines_of(&tokens), vec![1, 3, 4, 4]);
}

#[test]
fn comment_runs_to_the_end_of_the_line() {
    let (tokens, errors) = scan("1 // two three\n4 / 5 // six");
    assert!(errors.is_empty());
    assert_eq!(
        kinds_of(&tokens),
        vec![
            TokenType::Number,
            TokenType::Number,
            TokenType::Slash,
            TokenType::Number,
            TokenType::Eof,
        ]
    );
    assert_eq!(lines_of(&tokens), vec![1, 2, 2, 2, 2]);
}

#[test]
fn string_literal_has_its_text_as_payload() {
    let (tokens, errors) = scan("\"hello world\"");
    assert!(errors.is_empty());
    assert_eq!(kinds_of(&tokens), vec![TokenType::String, TokenType::Eof]);
    assert_eq!(tokens[0].lexeme, "\"hello world\"");
    assert!(matches!(&tokens[0].literal, LiteralValue::String(text) if text == "hello world"));
}

#[test]
fn empty_string_literal() {
    let (tokens, errors) = scan("\"\"");
    assert!(errors.is_empty());
    assert_eq!(tokens[0].lexeme, "\"\"");
    assert!(matches!(&tokens[0].literal, LiteralValue::String(text) if text.is_empty()));
}

#[test]
fn string_over_several_lines_begins_on_its_first_line() {
    let (tokens, errors) = scan("1\n\"a\nb\nc\" 2\n3");
    assert!(errors.is_empty());
    assert_eq!(
        kinds_of(&tokens),
        vec![
            TokenType::Number,
            TokenType::String,
            TokenType::Number,
            TokenType::Number,
            TokenType::Eof,
        ]
    );
    assert_eq!(lines_of(&tokens), vec![1, 2, 4, 5, 5]);
    assert!(matches!(&tokens[1].literal, LiteralValue::String(text) if text == "a\nb\nc"));
}

#[test]
fn unterminated_string_is_reported_on_the_last_line() {
    let (tokens, errors) = scan("1 \"abc\ndef");
    assert_eq!(kinds_of(&tokens), vec![TokenType::Number, TokenType::Eof]);
    assert_eq!(errors, vec![LexicalError { line: 2, kind: LexicalErrorKind::UnterminatedString }]);
    assert_eq!(tokens[1].line, 2);
}

#[test]
fn number_literals() {
    let (tokens, errors) = scan("0 123 45.67 007 1.50");
    assert!(errors.is_empty());
    assert_eq!(lexemes_of(&tokens), vec!["0", "123", "45.67", "007", "1.50", ""]);
    for (token, value) in tokens.iter().zip([0.0, 123.0, 45.67, 7.0, 1.5]) {
        assert_eq!(token.token_type, TokenType::Number);
        match &token.literal {
            LiteralValue::Number(numeral) => {
                assert_eq!(numeral, &token.lexeme);
                assert_eq!(numeral.parse::<f64>().unwrap(), value);
            }
            other => panic!("no number: {:?}", other),
        }
    }
}

#[test]
fn trailing_dot_is_not_part_of_a_number() {
    let (tokens, errors) = scan("12.");
    assert!(errors.is_empty());
    assert_eq!(kinds_of(&tokens), vec![TokenType::Number, TokenType::Dot, TokenType::Eof]);
    assert_eq!(lexemes_of(&tokens), vec!["12", ".", ""]);
}

#[test]
fn leading_dot_is_not_part_of_a_number() {
    let (tokens, _) = scan(".5");
    assert_eq!(kinds_of(&tokens), vec![TokenType::Dot, TokenType::Number, TokenType::Eof]);
}

#[test]
fn number_takes_one_fraction_only() {
    let (tokens, _) = scan("1.2.3");
    assert_eq!(
        kinds_of(&tokens),
        vec![TokenType::Number, TokenType::Dot, TokenType::Number, TokenType::Eof]
    );
    assert_eq!(lexemes_of(&tokens), vec!["1.2", ".", "3", ""]);
}

#[test]
fn number_followed_by_a_method_call() {
    let (tokens, _) = scan("12.abs");
    assert_eq!(
        kinds_of(&tokens),
        vec![TokenType::Number, TokenType::Dot, TokenType::Identifier, TokenType::Eof]
    );
}

#[test]
fn every_keyword_yields_its_kind() {
    let table = [
        ("and", TokenType::And),
        ("class", TokenType::Class),
        ("else", TokenType::Else),
        ("false", TokenType::False),
        ("for", TokenType::For),
        ("fun", TokenType::Fun),
        ("if", TokenType::If),
        ("nil", TokenType::Nil),
        ("or", TokenType::Or),
        ("print", TokenType::Print),
        ("return", TokenType::Return),
        ("super", TokenType::Super),
        ("this", TokenType::This),
        ("true", TokenType::True),
        ("var", TokenType::Var),
        ("while", TokenType::While),
    ];
    for (word, kind) in table {
        let (tokens, errors) = scan(word);
        assert!(errors.is_empty());
        assert_eq!(kinds_of(&tokens), vec![kind, TokenType::Eof]);
        assert_eq!(tokens[0].lexeme, word);
        assert!(matches!(tokens[0].literal, LiteralValue::Nil));
    }
}

#[test]
fn other_words_are_identifiers() {
    let words =
        ["andy", "classy", "_", "_x1", "For", "nil_", "x", "whi", "whiles", "a1b2", "__init__"];
    for word in words {
        let (tokens, errors) = scan(word);
        assert!(errors.is_empty());
        assert_eq!(kinds_of(&tokens), vec![TokenType::Identifier, TokenType::Eof]);
        assert_eq!(tokens[0].lexeme, word);
    }
}

#[test]
fn digits_do_not_begin_a_word() {
    let (tokens, _) = scan("1abc");
    assert_eq!(kinds_of(&tokens), vec![TokenType::Number, TokenType::Identifier, TokenType::Eof]);
    assert_eq!(lexemes_of(&tokens), vec!["1", "abc", ""]);
}

#[test]
fn unexpected_character_is_reported_and_scanning_goes_on() {
    let (tokens, errors) = scan("1 @ 2\n# 3");
    assert_eq!(
        kinds_of(&tokens),
        vec![TokenType::Number, TokenType::Number, TokenType::Number, TokenType::Eof]
    );
    assert_eq!(
        errors,
        vec![
            LexicalError { line: 1, kind: LexicalErrorKind::UnexpectedCharacter },
            LexicalError { line: 2, kind: LexicalErrorKind::UnexpectedCharacter },
        ]
    );
}

#[test]
fn nul_and_non_ascii_characters_are_unexpected() {
    let (tokens, errors) = scan("a\0b é c");
    assert_eq!(
        kinds_of(&tokens),
        vec![TokenType::Identifier, TokenType::Identifier, TokenType::Identifier, TokenType::Eof]
    );
    assert_eq!(errors.len(), 2);
}

#[test]
fn non_ascii_text_in_strings_and_comments() {
    let (tokens, errors) = scan("\"héllo → wörld\" // ünïcode\nx");
    assert!(errors.is_empty());
    assert_eq!(kinds_of(&tokens), vec![TokenType::String, TokenType::Identifier, TokenType::Eof]);
    assert_eq!(tokens[0].lexeme, "\"héllo → wörld\"");
    assert!(matches!(&tokens[0].literal, LiteralValue::String(text) if text == "héllo → wörld"));
    assert_eq!(tokens[1].line, 2);
}

#[test]
fn lexemes_are_the_pieces_of_the_source_in_order() {
    let source = "var answer = (40 + 2.0) >= \"x\"; // done\nprint answer;";
    let (tokens, errors) = scan(source);
    assert!(errors.is_empty());
    let mut from = 0;
    for token in &tokens[..tokens.len() - 1] {
        let at = source[from..].find(token.lexeme.as_str()).unwrap() + from;
        let skipped = &source[from..at];
        assert!(
            skipped.chars().all(|c| c.is_whitespace()) || skipped.trim_start().starts_with("//")
        );
        let line = source[..at].chars().filter(|c| *c == '\n').count() + 1;
        assert_eq!(token.line, line);
        from = at + token.lexeme.len();
    }
    assert_eq!(
        lexemes_of(&tokens),
        vec![
            "var", "answer", "=", "(", "40", "+", "2.0", ")", ">=", "\"x\"", ";", "print",
            "answer", ";", "",
        ]
    );
}

#[test]
fn line_numbers_are_not_capped() {
    let mut source = "\n".repeat(300);
    source.push_str("x");
    source.push_str(&"\n".repeat(70_000));
    source.push_str("y");
    let (tokens, _) = scan(&source);
    assert_eq!(lines_of(&tokens), vec![301, 70_301, 70_301]);
}

#[test]
fn token_text_is_lexeme_and_payload() {
    let (tokens, _) = scan("\"hi\" 4.5 while");
    assert_eq!(tokens[0].to_string(), "\"hi\" hi");
    assert_eq!(tokens[1].to_string(), "4.5 4.5");
    assert_eq!(tokens[2].to_string(), "while ");
    assert_eq!(tokens[3].to_string(), " ");
}

#[test]
fn literal_text() {
    assert_eq!(LiteralValue::Nil.text(), "nil");
    assert_eq!(LiteralValue::Bool(true).text(), "true");
    assert_eq!(LiteralValue::Bool(false).text(), "false");
    assert_eq!(LiteralValue::Number(String::from("1.5")).text(), "1.5");
    assert_eq!(LiteralValue::String(String::from("a b")).text(), "a b");
}

#[test]
fn clones_are_equal_in_every_field() {
    let (tokens, _) = scan("\"hi\" 7");
    for token in &tokens {
        let copy = token.clone();
        assert_eq!(copy.token_type, token.token_type);
        assert_eq!(copy.lexeme, token.lexeme);
        assert_eq!(copy.line, token.line);
        assert_eq!(copy.literal.text(), token.literal.text());
    }
}

#[test]
fn lexical_error_messages_and_reports() {
    assert_eq!(LexicalErrorKind::UnexpectedCharacter.message(), "Unexpected character");
    assert_eq!(LexicalErrorKind::UnterminatedString.message(), "Unterminated string.");
    let error = LexicalError { line: 12, kind: LexicalErrorKind::UnterminatedString };
    assert_eq!(error.report(), "[line: 12] Error: Unterminated string.");
}
