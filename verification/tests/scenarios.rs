use lang::ast::ast_printer::AstPrinter;
use lang::ast::parser::Parser;
use lang::lexical_analysis::{Lexer, LexicalErrorKind, LiteralValue, Token, TokenType};

fn scan(source: &str) -> (Vec<Token>, Vec<(usize, LexicalErrorKind)>) {
    let mut lexer = Lexer::new(String::from(source));
    lexer.scan_tokens();
    let tokens = lexer.tokens().iter().cloned().collect();
    let errors = lexer.errors().iter().map(|e| (e.line, e.kind)).collect();
    (tokens, errors)
}

fn kinds(source: &str) -> Vec<TokenType> {
    let (tokens, _) = scan(source);
    assert_eq!(tokens.last().unwrap().token_type, TokenType::Eof);
    tokens[..tokens.len() - 1].iter().map(|t| t.token_type).collect()
}

fn parse_and_print(source: &str) -> Result<String, String> {
    let (tokens, _) = scan(source);
    let mut parser = Parser::new(tokens);
    match parser.parse() {
        Ok(expr) => Ok(AstPrinter {}.print(&expr)),
        Err(error) => Err(error.report()),
    }
}

#[test]
fn addition() {
    assert_eq!(kinds("1 + 2"), vec![TokenType::Number, TokenType::Plus, TokenType::Number]);
    assert_eq!(parse_and_print("1 + 2"), Ok(String::from("(+ 1 2)")));
}

#[test]
fn unary_and_grouping() {
    assert_eq!(
        kinds("-123 * (45.67)"),
        vec![
            TokenType::Minus,
            TokenType::Number,
            TokenType::Star,
            TokenType::LeftParen,
            TokenType::Number,
            TokenType::RightParen,
        ]
    );
    assert_eq!(parse_and_print("-123 * (45.67)"), Ok(String::from("(* (- 123) (group 45.67))")));
}

#[test]
fn factor_binds_tighter_than_term() {
    assert_eq!(
        kinds("1 + 2 * 3"),
        vec![
            TokenType::Number,
            TokenType::Plus,
            TokenType::Number,
            TokenType::Star,
            TokenType::Number,
        ]
    );
    assert_eq!(parse_and_print("1 + 2 * 3"), Ok(String::from("(+ 1 (* 2 3))")));
}

#[test]
fn comparison_binds_tighter_than_equality() {
    assert_eq!(
        kinds("1 < 2 == 3 > 4"),
        vec![
            TokenType::Number,
            TokenType::Less,
            TokenType::Number,
            TokenType::EqualEqual,
            TokenType::Number,
            TokenType::Greater,
            TokenType::Number,
        ]
    );
    assert_eq!(parse_and_print("1 < 2 == 3 > 4"), Ok(String::from("(== (< 1 2) (> 3 4))")));
}

#[test]
fn string_plus_nil() {
    let (tokens, errors) = scan("\"hi\" + nil");
    assert!(errors.is_empty());
    let found: Vec<TokenType> = tokens.iter().map(|t| t.token_type).collect();
    assert_eq!(found, vec![TokenType::String, TokenType::Plus, TokenType::Nil, TokenType::Eof]);
    assert_eq!(tokens[0].lexeme, "\"hi\"");
    assert!(matches!(&tokens[0].literal, LiteralValue::String(text) if text == "hi"));
    assert_eq!(parse_and_print("\"hi\" + nil"), Ok(String::from("(+ hi nil)")));
}

#[test]
fn comment_is_discarded() {
    assert_eq!(kinds("// comment\n1"), vec![TokenType::Number]);
    assert_eq!(parse_and_print("// comment\n1"), Ok(String::from("1")));
}

#[test]
fn missing_right_paren() {
    assert_eq!(
        kinds("(1 + 2"),
        vec![TokenType::LeftParen, TokenType::Number, TokenType::Plus, TokenType::Number]
    );
    assert_eq!(
        parse_and_print("(1 + 2"),
        Err(String::from("[line: 1] Error at end: Expect ')' after expression."))
    );
}

#[test]
fn unterminated_string() {
    let (tokens, errors) = scan("\"unterminated");
    assert_eq!(tokens.len(), 1);
    assert_eq!(tokens[0].token_type, TokenType::Eof);
    assert_eq!(errors, vec![(1, LexicalErrorKind::UnterminatedString)]);
    assert_eq!(LexicalErrorKind::UnterminatedString.message(), "Unterminated string.");
}
