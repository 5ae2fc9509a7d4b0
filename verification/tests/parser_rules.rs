use lox_frontend::{Expr, LiteralType, Parser, ParserError, Scanner, Token, TokenType};

/// The tokens of `source`.
fn tokens_of(source: &str) -> Vec<Token> {
    let mut scanner = Scanner::new(source);
    scanner.scan_tokens();
    assert!(scanner.errors.is_empty());
    scanner.tokens
}

/// What parsing `source` yields.
fn parse(source: &str) -> Result<Expr, ParserError> {
    let tokens = tokens_of(source);
    let mut parser = Parser::new(&tokens);
    assert!(parser.is_ready());
    parser.parse()
}

/// The tree of `source`, written out.
fn tree(source: &str) -> String {
    parse(source).unwrap().to_string()
}

#[test]
fn factor_binds_more_tightly_than_term() {
    assert_eq!(tree("1 + 2 * 3"), "(+ 1 (* 2 3))");
    assert_eq!(tree("1 * 2 + 3"), "(+ (* 1 2) 3)");
    assert_eq!(tree("1 - 6 / 3"), "(- 1 (/ 6 3))");
}

#[test]
fn operators_of_one_rule_group_from_the_left() {
    assert_eq!(tree("1 - 2 - 3"), "(- (- 1 2) 3)");
    assert_eq!(tree("8 / 4 / 2"), "(/ (/ 8 4) 2)");
    assert_eq!(tree("1 + 2 - 3 + 4"), "(+ (- (+ 1 2) 3) 4)");
    assert_eq!(tree("1 == 2 != 3"), "(!= (== 1 2) 3)");
    assert_eq!(tree("1 < 2 >= 3"), "(>= (< 1 2) 3)");
}

#[test]
fn comparison_binds_less_tightly_than_term() {
    assert_eq!(tree("1 + 2 <= 5 + 7"), "(<= (+ 1 2) (+ 5 7))");
    assert_eq!(tree("1 < 2 == 3 > 4"), "(== (< 1 2) (> 3 4))");
}

#[test]
fn prefix_operators_nest_to_the_right() {
    assert_eq!(tree("!!true"), "(! (! true))");
    assert_eq!(tree("-1 - -2"), "(- (- 1) (- 2))");
    assert_eq!(tree("!-1 * 2"), "(* (! (- 1)) 2)");
}

#[test]
fn parentheses_make_a_grouping() {
    assert_eq!(tree("(1 + 2) * 3"), "(* (group (+ 1 2)) 3)");
    assert_eq!(tree("(1) + 2"), "(+ (group 1) 2)");
    assert_eq!(tree("((nil))"), "(group (group nil))");
    assert_eq!(tree("-(1 - 2)"), "(- (group (- 1 2)))");
}

#[test]
fn literals_are_leaves() {
    assert_eq!(tree("nil"), "nil");
    assert_eq!(tree("true"), "true");
    assert_eq!(tree("false"), "false");
    assert_eq!(tree("\"hi there\""), "hi there");
    assert_eq!(tree("1.50"), "1.5");
    assert_eq!(
        parse("true").unwrap(),
        Expr::Literal(LiteralType::Bool(true))
    );
    assert_eq!(parse("nil").unwrap(), Expr::Literal(LiteralType::Nil));
}

#[test]
fn tree_holds_the_operator_tokens() {
    let expr = parse("1 +\n2").unwrap();
    match expr {
        Expr::Binary(left, operator, right) => {
            assert_eq!(left.to_string(), "1");
            assert_eq!(
                operator,
                Token {
                    token: TokenType::Plus,
                    line: 1,
                    lexeme: "+".into(),
                    literal: None
                }
            );
            assert_eq!(right.to_string(), "2");
        }
        other => panic!("no binary expression: {:?}", other),
    }
}

#[test]
fn missing_closing_paren_is_a_parse_error() {
    assert_eq!(
        parse("1 + 2 + (5 + 7"),
        Err(ParserError::ParseError {
            message: "Expected ')' after expression".into()
        })
    );
    assert_eq!(
        parse("(1 ;"),
        Err(ParserError::ParseError {
            message: "Expected ')' after expression".into()
        })
    );
}

#[test]
fn token_that_begins_no_expression_is_a_primary_error() {
    assert_eq!(
        parse("class + 2 + 1"),
        Err(ParserError::PrimaryError { line: 1 })
    );
    assert_eq!(parse(""), Err(ParserError::PrimaryError { line: 1 }));
    assert_eq!(parse("1 +"), Err(ParserError::PrimaryError { line: 1 }));
    assert_eq!(parse(")"), Err(ParserError::PrimaryError { line: 1 }));
    assert_eq!(
        parse("1 *\n\n/ 2"),
        Err(ParserError::PrimaryError { line: 3 })
    );
}

#[test]
fn first_error_ends_the_parse() {
    let tokens = tokens_of("(1 + ) + (2");
    let mut parser = Parser::new(&tokens);
    assert_eq!(parser.parse(), Err(ParserError::PrimaryError { line: 1 }));
}

#[test]
fn literal_token_without_value_is_an_error() {
    let tokens = vec![
        Token {
            token: TokenType::Number,
            line: 7,
            lexeme: "1".into(),
            literal: None,
        },
        Token {
            token: TokenType::EOF,
            line: 7,
            lexeme: "\0".into(),
            literal: None,
        },
    ];
    let mut parser = Parser::new(&tokens);
    assert_eq!(
        parser.parse(),
        Err(ParserError::UndefinedLiteral { line: 7 })
    );
}

#[test]
fn parse_stops_at_a_token_outside_expressions() {
    let tokens = tokens_of("1 + 2 ; 3");
    let mut parser = Parser::new(&tokens);
    assert_eq!(parser.parse().unwrap().to_string(), "(+ 1 2)");
    assert_eq!(parser.parse(), Err(ParserError::PrimaryError { line: 1 }));

    assert_eq!(tree("1 2"), "1");
    assert_eq!(tree("1 = 2"), "1");
}

#[test]
fn parsing_again_yields_the_same_tree() {
    let sources = [
        "1 + 2 * 3",
        "(1 - -2) / \"x\" == !nil",
        "1 + 2 + (5 + 7",
        "class + 2 + 1",
        "",
    ];
    for source in sources {
        let tokens = tokens_of(source);
        let before = tokens.clone();
        let first = Parser::new(&tokens).parse();
        assert_eq!(tokens, before);
        let second = Parser::new(&tokens).parse();
        assert_eq!(tokens, before);
        assert_eq!(first, second);
    }
}

#[test]
fn parser_is_ready_where_a_token_stops_it() {
    let tokens = tokens_of("1 + 2");
    assert!(Parser::new(&tokens).is_ready());

    let mut open = tokens_of("1 + 2");
    open.pop();
    assert!(!Parser::new(&open).is_ready());

    let none: Vec<Token> = vec![];
    assert!(!Parser::new(&none).is_ready());

    let semi = tokens_of(";");
    assert!(Parser::new(&semi).is_ready());
}

#[test]
fn synchronise_skips_to_the_next_statement() {
    let tokens = tokens_of("1 + + 2 ; 3 * 4");
    let mut parser = Parser::new(&tokens);
    assert_eq!(parser.parse(), Err(ParserError::PrimaryError { line: 1 }));
    parser.synchronise();
    assert_eq!(parser.parse().unwrap().to_string(), "(* 3 4)");

    let tokens = tokens_of(")\noops\nprint\n1\n");
    let mut parser = Parser::new(&tokens);
    assert_eq!(parser.parse(), Err(ParserError::PrimaryError { line: 1 }));
    parser.synchronise();
    assert_eq!(parser.parse(), Err(ParserError::PrimaryError { line: 3 }));
    parser.synchronise();
    assert_eq!(parser.parse(), Err(ParserError::PrimaryError { line: 5 }));
}

#[test]
fn synchronise_stays_at_the_end() {
    let tokens = tokens_of("");
    let mut parser = Parser::new(&tokens);
    parser.synchronise();
    assert_eq!(parser.parse(), Err(ParserError::PrimaryError { line: 1 }));

    let tokens = tokens_of("1 2 3");
    let mut parser = Parser::new(&tokens);
    parser.synchronise();
    parser.synchronise();
    assert!(parser.is_ready());
    assert_eq!(parser.parse(), Err(ParserError::PrimaryError { line: 1 }));
}
