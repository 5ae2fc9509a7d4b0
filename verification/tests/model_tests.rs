use lox_frontend::text::{chars_of, run_end, spells, string_of};
use lox_frontend::{CharClass, Decimal, Expr, LiteralType, Program, ScannerError, Token, TokenType};

fn operator(token: TokenType, lexeme: &str) -> Token {
    Token {
        token,
        line: 1,
        lexeme: lexeme.into(),
        literal: None,
    }
}

fn numeral(text: &str) -> Expr {
    Expr::Literal(LiteralType::Number(Decimal::parse(text).unwrap()))
}

#[test]
fn decimal_reads_numerals_only() {
    let numerals = [
        "0",
        "3",
        "3.14",
        "007",
        "1.50",
        "0.0",
        "10.01",
        "123456789012345678901234567890",
    ];
    for text in numerals {
        assert!(Decimal::parse(text).is_some(), "{}", text);
    }
    let others = [
        "", ".", ".5", "1.", "1.2.3", "a", "1a", "1.a", "-1", "+1", " 1", "1 ", "1e5", "١",
    ];
    for text in others {
        assert!(Decimal::parse(text).is_none(), "{:?}", text);
    }
}

#[test]
fn decimal_is_written_in_canonical_form() {
    let cases = [
        ("0", "0"),
        ("3", "3"),
        ("3.14", "3.14"),
        ("007", "7"),
        ("000", "0"),
        ("1.50", "1.5"),
        ("1.0", "1"),
        ("0.0", "0"),
        ("00.500", "0.5"),
        ("10.010", "10.01"),
        ("100", "100"),
    ];
    for (text, canonical) in cases {
        assert_eq!(Decimal::parse(text).unwrap().to_string(), canonical);
    }
}

#[test]
fn decimals_of_one_value_are_equal() {
    assert_eq!(Decimal::parse("1.0"), Decimal::parse("1"));
    assert_eq!(Decimal::parse("01.10"), Decimal::parse("1.1"));
    assert_ne!(Decimal::parse("1.1"), Decimal::parse("1.01"));
    assert_ne!(Decimal::parse("10"), Decimal::parse("1"));
    let number = Decimal::parse("2.5").unwrap();
    assert_eq!(number.clone(), number);
}

#[test]
fn decimal_reads_back_what_it_writes() {
    for text in ["0", "7", "0.5", "12.034", "1000"] {
        let number = Decimal::parse(text).unwrap();
        assert_eq!(number.to_string(), text);
        assert_eq!(Decimal::parse(&number.to_string()).unwrap(), number);
    }
}

#[test]
fn decimal_from_chars_reads_a_stretch() {
    let chars: Vec<char> = "x=12.50;".chars().collect();
    assert_eq!(Decimal::from_chars(&chars, 2, 7), Decimal::parse("12.5"));
    assert_eq!(Decimal::from_chars(&chars, 2, 4), Decimal::parse("12"));
    assert_eq!(Decimal::from_chars(&chars, 2, 5), None);
    assert_eq!(Decimal::from_chars(&chars, 0, 4), None);
    assert_eq!(Decimal::from_chars(&chars, 3, 3), None);
}

#[test]
fn literal_is_written_as_its_value() {
    assert_eq!(LiteralType::Str("a b".into()).to_string(), "a b");
    assert_eq!(
        LiteralType::Number(Decimal::parse("2.50").unwrap()).to_string(),
        "2.5"
    );
    assert_eq!(LiteralType::Bool(true).to_string(), "true");
    assert_eq!(LiteralType::Bool(false).to_string(), "false");
    assert_eq!(LiteralType::Nil.to_string(), "nil");
    let literal = LiteralType::Str("x".into());
    assert_eq!(literal.clone(), literal);
}

#[test]
fn token_is_written_as_its_lexeme() {
    let token = Token {
        token: TokenType::Str,
        line: 3,
        lexeme: "\"hi\"".into(),
        literal: Some(LiteralType::Str("hi".into())),
    };
    assert_eq!(token.to_string(), "\"hi\"");
    assert_eq!(token.clone(), token);
}

#[test]
fn expression_is_written_in_prefix_form() {
    let sum = Expr::Binary(
        Box::new(numeral("1")),
        operator(TokenType::Plus, "+"),
        Box::new(numeral("2")),
    );
    assert_eq!(sum.to_string(), "(+ 1 2)");

    let negation = Expr::Unary(operator(TokenType::Minus, "-"), Box::new(numeral("3")));
    assert_eq!(negation.to_string(), "(- 3)");

    let grouping = Expr::Grouping(Box::new(Expr::Literal(LiteralType::Nil)));
    assert_eq!(grouping.to_string(), "(group nil)");

    let nested = Expr::Binary(
        Box::new(negation),
        operator(TokenType::Star, "*"),
        Box::new(Expr::Grouping(Box::new(sum))),
    );
    assert_eq!(nested.to_string(), "(* (- 3) (group (+ 1 2)))");

    assert_eq!(
        Expr::Literal(LiteralType::Str("text".into())).to_string(),
        "text"
    );
}

#[test]
fn program_notes_errors() {
    let mut program = Program::default();
    assert!(!program.had_error);
    assert_eq!(program.exit_code(), 0);

    let (tokens, errors) = program.run("1 + 2");
    assert_eq!(tokens.len(), 4);
    assert!(errors.is_empty());
    assert!(!program.had_error);
    assert_eq!(program.exit_code(), 0);

    let (tokens, errors) = program.run("(){}+-; and # for var <= >= \"hey\" random   // comment");
    assert_eq!(tokens.len(), 15);
    assert_eq!(
        errors,
        vec![ScannerError::UnexpectedToken {
            lexeme: "#".into(),
            line: 1
        }]
    );
    assert!(program.had_error);
    assert_eq!(program.exit_code(), 65);

    let (_, errors) = program.run("nil");
    assert!(errors.is_empty());
    assert!(program.had_error);
    assert_eq!(program.exit_code(), 65);
}

#[test]
fn character_classes_test_characters() {
    for c in ['0', '5', '9'] {
        assert!(CharClass::Digit.test(c));
        assert!(CharClass::Word.test(c));
    }
    for c in ['a', 'z', 'A', 'Z', '_'] {
        assert!(!CharClass::Digit.test(c));
        assert!(CharClass::Word.test(c));
    }
    for c in ['/', ':', '@', '[', '`', '{', ' ', 'é', '٣'] {
        assert!(!CharClass::Digit.test(c));
        assert!(!CharClass::Word.test(c));
    }
    assert!(CharClass::Is('"').test('"'));
    assert!(!CharClass::Is('"').test('\''));
    assert!(CharClass::Not('\n').test('n'));
    assert!(!CharClass::Not('\n').test('\n'));
}

#[test]
fn text_helpers_work_on_characters() {
    assert_eq!(chars_of("aé\n"), vec!['a', 'é', '\n']);
    assert_eq!(chars_of(""), Vec::<char>::new());

    let chars = chars_of("var x1 = 10;");
    assert_eq!(string_of(&chars, 4, 6), "x1");
    assert_eq!(string_of(&chars, 0, 0), "");
    assert!(spells(&chars, 0, 3, "var"));
    assert!(!spells(&chars, 0, 3, "vat"));
    assert!(!spells(&chars, 0, 2, "var"));
    assert!(!spells(&chars, 0, 4, "var"));
    assert!(spells(&chars, 5, 5, ""));
    assert_eq!(run_end(&chars, 4, CharClass::Word), 6);
    assert_eq!(run_end(&chars, 9, CharClass::Digit), 11);
    assert_eq!(run_end(&chars, 3, CharClass::Word), 3);
    assert_eq!(run_end(&chars, 0, CharClass::Not(';')), 11);
    assert_eq!(run_end(&chars, 12, CharClass::Digit), 12);
}

#[test]
fn token_types_of_characters_and_words() {
    assert_eq!(TokenType::punctuation('('), Some(TokenType::LeftParen));
    assert_eq!(TokenType::punctuation('*'), Some(TokenType::Star));
    assert_eq!(TokenType::punctuation('/'), None);
    assert_eq!(TokenType::punctuation('='), None);
    assert_eq!(
        TokenType::operator('!'),
        Some((TokenType::Bang, TokenType::BangEqual))
    );
    assert_eq!(
        TokenType::operator('>'),
        Some((TokenType::Greater, TokenType::GreaterEqual))
    );
    assert_eq!(TokenType::operator('+'), None);

    let chars = chars_of("return returns");
    assert_eq!(TokenType::word(&chars, 0, 6), TokenType::Return);
    assert_eq!(TokenType::word(&chars, 7, 14), TokenType::Identifier);
    assert_eq!(TokenType::word(&chars, 0, 5), TokenType::Identifier);

    assert!(TokenType::Print.is_statement_start());
    assert!(!TokenType::Plus.is_statement_start());
    assert!(TokenType::Plus.is_in_expression());
    assert!(!TokenType::Semicolon.is_in_expression());
    assert!(!TokenType::EOF.is_in_expression());
}
