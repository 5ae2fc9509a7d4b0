use lox_frontend::{Decimal, LiteralType, Parser, ParserError, Scanner, Token, TokenType};

/// The number literal whose value is `value`.
fn number_literal(value: f64) -> LiteralType {
    LiteralType::Number(Decimal::parse(&format!("{}", value)).unwrap())
}

#[test]
fn should_add() {
    let one = Token {
        lexeme: "1".into(),
        line: 1,
        literal: Some(number_literal(1.0)),
        token: TokenType::Number,
    };

    let plus = Token {
        lexeme: "+".into(),
        line: 1,
        literal: None,
        token: TokenType::Plus,
    };

    let two = Token {
        lexeme: "2".into(),
        line: 1,
        literal: Some(number_literal(2.0)),
        token: TokenType::Number,
    };

    let semi = Token {
        lexeme: ';'.into(),
        line: 1,
        literal: None,
        token: TokenType::Semicolon,
    };

    let scanned_tokens = vec![one, plus, two, semi];

    let mut parser = Parser::new(&scanned_tokens);
    let expr = parser.parse();

    assert_eq!(expr.unwrap().to_string(), "(+ 1 2)");
}

#[test]
fn input_from_scanner() {
    let mut scanner = Scanner::new("1 + 2 <= 5 + 7");
    let (tokens, _) = scanner.scan_tokens();
    let mut parser = Parser::new(&tokens);
    let expr = parser.parse();

    assert_eq!(expr.unwrap().to_string(), "(<= (+ 1 2) (+ 5 7))");
}

#[test]
fn should_report_paren_error() {
    let mut scanner = Scanner::new("1 + 2 + (5 + 7");
    let (tokens, _) = scanner.scan_tokens();
    let mut parser = Parser::new(&tokens);
    let expr_err = parser.parse().expect_err("Successfully parsed");

    assert!(matches!(expr_err, ParserError::ParseError { message: _ }))
}

#[test]
fn should_report_primary_error() {
    let mut scanner = Scanner::new("class + 2 + 1");
    let (tokens, _) = scanner.scan_tokens();
    let mut parser = Parser::new(&tokens);
    let expr_err = parser.parse().expect_err("Successfully parsed");

    assert!(matches!(expr_err, ParserError::PrimaryError { line: _ }))
}
