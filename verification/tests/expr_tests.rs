use lox_frontend::{Decimal, Expr, LiteralType, Token, TokenType};

/// The number literal whose value is `value`.
fn number_value(value: f64) -> LiteralType {
    LiteralType::Number(Decimal::parse(&format!("{}", value)).unwrap())
}

#[test]
fn should_stringify_deep() {
    let ast = Expr::Binary(
        Box::from(Expr::Grouping(Box::from(Expr::Unary(
            Token {
                lexeme: "/".into(),
                line: 1,
                literal: None,
                token: TokenType::Slash,
            },
            Box::from(Expr::Literal(number_value(1.0))),
        )))),
        Token {
            lexeme: "+".into(),
            line: 1,
            literal: None,
            token: TokenType::Plus,
        },
        Box::from(Expr::Literal(number_value(3.0))),
    );

    assert_eq!("(+ (group (/ 1)) 3)", ast.to_string());
}
