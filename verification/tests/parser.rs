use lang::ast::ast_printer::AstPrinter;
use lang::ast::expression::{Binary, Expr, Grouping, Literal, Unary};
use lang::ast::parser::{ParseError, Parser};
use lang::lexical_analysis::{Lexer, LiteralValue, Token, TokenType};

fn tokens_of(source: &str) -> Vec<Token> {
    let mut lexer = Lexer::new(String::from(source));
    lexer.scan_tokens().clone()
}

fn parse_source(source: &str) -> Result<Expr, ParseError> {
    Parser::new(tokens_of(source)).parse()
}

fn printed(source: &str) -> String {
    AstPrinter {}.print(&parse_source(source).unwrap())
}

fn report_of(source: &str) -> String {
    match parse_source(source) {
        Ok(expr) => panic!("parsed: {:?}", expr),
        Err(error) => error.report(),
    }
}

fn token(token_type: TokenType, lexeme: &str, line: usize) -> Token {
    Token { token_type, lexeme: String::from(lexeme), literal: LiteralValue::Nil, line }
}

#[test]
fn literals() {
    assert_eq!(printed("nil"), "nil");
    assert_eq!(printed("true"), "true");
    assert_eq!(printed("false"), "false");
    assert_eq!(printed("12"), "12");
    assert_eq!(printed("12.50"), "12.50");
    assert_eq!(printed("\"a b\""), "a b");
}

#[test]
fn literal_nodes_hold_the_payload() {
    assert!(matches!(
        parse_source("false"),
        Ok(Expr::Literal(Literal { value: LiteralValue::Bool(false) }))
    ));
    assert!(matches!(
        parse_source("true"),
        Ok(Expr::Literal(Literal { value: LiteralValue::Bool(true) }))
    ));
    assert!(matches!(parse_source("nil"), Ok(Expr::Literal(Literal { value: LiteralValue::Nil }))));
    assert!(matches!(
        parse_source("4.25"),
        Ok(Expr::Literal(Literal { value: LiteralValue::Number(numeral) })) if numeral == "4.25"
    ));
    assert!(matches!(
        parse_source("\"hi\""),
        Ok(Expr::Literal(Literal { value: LiteralValue::String(text) })) if text == "hi"
    ));
}

#[test]
fn binary_operators_associate_to_the_left() {
    assert_eq!(printed("1 - 2 - 3"), "(- (- 1 2) 3)");
    assert_eq!(printed("8 / 4 / 2"), "(/ (/ 8 4) 2)");
    assert_eq!(printed("1 + 2 - 3 + 4"), "(+ (- (+ 1 2) 3) 4)");
    assert_eq!(printed("1 == 2 != 3"), "(!= (== 1 2) 3)");
    assert_eq!(printed("1 < 2 <= 3 > 4 >= 5"), "(>= (> (<= (< 1 2) 3) 4) 5)");
}

#[test]
fn left_association_builds_the_tree_on_the_left() {
    match parse_source("1 - 2 - 3") {
        Ok(Expr::Binary(Binary { left, operator, right })) => {
            assert_eq!(operator.token_type, TokenType::Minus);
            assert!(matches!(*left, Expr::Binary(_)));
            assert!(matches!(*right, Expr::Literal(_)));
        }
        other => panic!("no binary node: {:?}", other),
    }
}

#[test]
fn tighter_operators_are_grouped_first() {
    assert_eq!(printed("1 * 2 + 3"), "(+ (* 1 2) 3)");
    assert_eq!(printed("1 + 2 * 3"), "(+ 1 (* 2 3))");
    assert_eq!(printed("1 + 2 < 3 - 4"), "(< (+ 1 2) (- 3 4))");
    assert_eq!(printed("1 < 2 == 3 >= 4"), "(== (< 1 2) (>= 3 4))");
    assert_eq!(printed("1 == 2 + 3 * 4"), "(== 1 (+ 2 (* 3 4)))");
    assert_eq!(printed("1 * 2 + 3 < 4 == true"), "(== (< (+ (* 1 2) 3) 4) true)");
}

#[test]
fn prefix_operators_bind_tightest() {
    assert_eq!(printed("-1 * 2"), "(* (- 1) 2)");
    assert_eq!(printed("1 * -2"), "(* 1 (- 2))");
    assert_eq!(printed("!true == false"), "(== (! true) false)");
    assert_eq!(printed("- - 1"), "(- (- 1))");
    assert_eq!(printed("!-!1"), "(! (- (! 1)))");
    assert_eq!(printed("1 - -2"), "(- 1 (- 2))");
}

#[test]
fn parentheses_override_precedence() {
    assert_eq!(printed("(1 + 2) * 3"), "(* (group (+ 1 2)) 3)");
    assert_eq!(printed("((1))"), "(group (group 1))");
    assert_eq!(printed("-(1 + 2)"), "(- (group (+ 1 2)))");
    assert_eq!(printed("1 - (2 - 3)"), "(- 1 (group (- 2 3)))");
}

#[test]
fn tokens_after_the_expression_are_left_alone() {
    let mut parser = Parser::new(tokens_of("1 + 2 3 4"));
    let expr = parser.parse().unwrap();
    assert_eq!(AstPrinter {}.print(&expr), "(+ 1 2)");
    assert_eq!(parser.current, 3);
}

#[test]
fn cursor_is_behind_the_expression() {
    let mut parser = Parser::new(tokens_of("(1 + 2) * 3"));
    assert!(parser.parse().is_ok());
    assert_eq!(parser.current, 7);
    assert_eq!(parser.tokens.len(), 8);
}

#[test]
fn expect_expression_at_a_token() {
    assert_eq!(report_of("+"), "[line: 1] Error at '+': Expect expression.");
    assert_eq!(report_of("1 +\n*"), "[line: 2] Error at '*': Expect expression.");
    assert_eq!(report_of("x"), "[line: 1] Error at 'x': Expect expression.");
    assert_eq!(report_of("\n\n)"), "[line: 3] Error at ')': Expect expression.");
}

#[test]
fn expect_expression_at_the_end() {
    assert_eq!(report_of(""), "[line: 1] Error at end: Expect expression.");
    assert_eq!(report_of("1 +"), "[line: 1] Error at end: Expect expression.");
    assert_eq!(report_of("-\n"), "[line: 2] Error at end: Expect expression.");
    assert_eq!(report_of("("), "[line: 1] Error at end: Expect expression.");
}

#[test]
fn expect_right_paren() {
    assert_eq!(report_of("(1 + 2"), "[line: 1] Error at end: Expect ')' after expression.");
    assert_eq!(report_of("(1 2)"), "[line: 1] Error at '2': Expect ')' after expression.");
    assert_eq!(report_of("((1)"), "[line: 1] Error at end: Expect ')' after expression.");
}

#[test]
fn parse_error_holds_the_offending_token() {
    match parse_source("1 * (2 + while)") {
        Err(error) => {
            assert_eq!(error.token.token_type, TokenType::While);
            assert_eq!(error.token.lexeme, "while");
            assert_eq!(error.message, "Expect expression.");
            assert_eq!(error.location(), " at 'while'");
        }
        Ok(expr) => panic!("parsed: {:?}", expr),
    }
}

#[test]
fn cursor_is_at_the_offending_token_after_an_error() {
    let mut parser = Parser::new(tokens_of("1 * (2 + while)"));
    assert!(parser.parse().is_err());
    assert_eq!(parser.current, 5);
}

#[test]
fn no_tokens_at_all() {
    let mut parser = Parser::new(Vec::new());
    match parser.parse() {
        Err(error) => {
            assert_eq!(error.token.token_type, TokenType::Eof);
            assert_eq!(error.report(), "[line: 0] Error at end: Expect expression.");
        }
        Ok(expr) => panic!("parsed: {:?}", expr),
    }
    assert_eq!(parser.current, 0);
}

#[test]
fn tokens_without_an_end_of_input_token() {
    let one = Token {
        token_type: TokenType::Number,
        lexeme: String::from("1"),
        literal: LiteralValue::Number(String::from("1")),
        line: 1,
    };
    let mut parser = Parser::new(vec![one.clone(), token(TokenType::Plus, "+", 1), one.clone()]);
    let expr = parser.parse().unwrap();
    assert_eq!(AstPrinter {}.print(&expr), "(+ 1 1)");
    assert_eq!(parser.current, 3);

    let mut parser = Parser::new(vec![one, token(TokenType::Plus, "+", 1)]);
    match parser.parse() {
        Err(error) => assert_eq!(error.report(), "[line: 0] Error at end: Expect expression."),
        Ok(expr) => panic!("parsed: {:?}", expr),
    }
}

#[test]
fn nothing_is_read_behind_an_end_of_input_token() {
    let tokens = vec![
        token(TokenType::Nil, "nil", 1),
        token(TokenType::Eof, "", 1),
        token(TokenType::Plus, "+", 1),
        token(TokenType::Nil, "nil", 1),
    ];
    let mut parser = Parser::new(tokens);
    let expr = parser.parse().unwrap();
    assert_eq!(AstPrinter {}.print(&expr), "nil");
    assert_eq!(parser.current, 1);
}

#[test]
fn printed_literals_are_read_back() {
    for source in ["nil", "true", "false", "0", "12.50", "007"] {
        let first = parse_source(source).unwrap();
        let text = AstPrinter {}.print(&first);
        let second = parse_source(&text).unwrap();
        match (first, second) {
            (Expr::Literal(a), Expr::Literal(b)) => assert_eq!(a.value.text(), b.value.text()),
            other => panic!("no literals: {:?}", other),
        }
        assert_eq!(text, source);
    }
}

#[test]
fn printed_operators_are_not_read_back() {
    for source in ["1 + 2", "-1", "(1)", "\"hi\""] {
        let first = parse_source(source).unwrap();
        let text = AstPrinter {}.print(&first);
        match parse_source(&text) {
            Err(_) => {}
            Ok(second) => assert_ne!(AstPrinter {}.print(&second), text),
        }
    }
}

#[test]
fn synchronize_stops_behind_a_semicolon() {
    let mut parser = Parser::new(tokens_of("1 + + 2 ; 3 4"));
    assert!(parser.parse().is_err());
    assert_eq!(parser.current, 2);
    parser.synchronize();
    assert_eq!(parser.current, 5);
    assert_eq!(AstPrinter {}.print(&parser.parse().unwrap()), "3");
}

#[test]
fn synchronize_stops_before_a_statement_keyword() {
    for keyword in ["class", "fun", "var", "for", "if", "while", "print", "return"] {
        let source = format!("( ) 1 2 {} 3", keyword);
        let mut parser = Parser::new(tokens_of(&source));
        assert!(parser.parse().is_err());
        assert_eq!(parser.current, 1);
        parser.synchronize();
        assert_eq!(parser.current, 4);
    }
}

#[test]
fn synchronize_skips_at_least_one_token() {
    let mut parser = Parser::new(tokens_of("print print 1"));
    parser.synchronize();
    assert_eq!(parser.current, 1);
    let mut parser = Parser::new(tokens_of("; ; 1"));
    parser.synchronize();
    assert_eq!(parser.current, 1);
}

#[test]
fn synchronize_stops_at_the_end() {
    let mut parser = Parser::new(tokens_of("1 2 3"));
    parser.synchronize();
    assert_eq!(parser.current, 3);
    parser.synchronize();
    assert_eq!(parser.current, 3);
    let mut parser = Parser::new(Vec::new());
    parser.synchronize();
    assert_eq!(parser.current, 0);
}

#[test]
fn sample_tree_is_printed_in_prefix_notation() {
    let sample = Expr::Binary(Binary {
        left: Box::new(Expr::Unary(Unary {
            operator: token(TokenType::Minus, "-", 0),
            right: Box::new(Expr::Literal(Literal {
                value: LiteralValue::Number(String::from("123")),
            })),
        })),
        operator: token(TokenType::Star, "*", 0),
        right: Box::new(Expr::Grouping(Grouping {
            expression: Box::new(Expr::Literal(Literal {
                value: LiteralValue::Number(String::from("45")),
            })),
        })),
    });
    assert_eq!(AstPrinter {}.print(&sample), "(* (- 123) (group 45))");
    assert_eq!(sample.accept(&AstPrinter {}), "(* (- 123) (group 45))");
}
