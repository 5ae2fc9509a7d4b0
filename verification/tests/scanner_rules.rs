use lox_frontend::{Decimal, LiteralType, Scanner, ScannerError, Token, TokenType};

/// The tokens and the errors of `source`.
fn scan(source: &str) -> (Vec<Token>, Vec<ScannerError>) {
    let mut scanner = Scanner::new(source);
    scanner.scan_tokens();
    (scanner.tokens, scanner.errors)
}

/// The categories of the tokens of `source`.
fn kinds(source: &str) -> Vec<TokenType> {
    scan(source).0.iter().map(|token| token.token).collect()
}

/// The lexemes of the tokens of `source`.
fn lexemes(source: &str) -> Vec<String> {
    scan(source).0.iter().map(|token| token.lexeme.clone()).collect()
}

fn plain(token: TokenType, lexeme: &str, line: usize) -> Token {
    Token {
        token,
        line,
        lexeme: lexeme.into(),
        literal: None,
    }
}

fn decimal(text: &str) -> LiteralType {
    LiteralType::Number(Decimal::parse(text).unwrap())
}

#[test]
fn tokens_end_with_eof_on_the_last_line() {
    let sources = [
        "",
        "\n",
        "1 + 2",
        "a\nb\nc",
        "\"one\ntwo\nthree\" + 1\n",
        "// comment\n// comment\n",
        "\"open\n\n",
        "# $ \n @",
        "\r\n\r\n",
    ];
    for source in sources {
        let mut scanner = Scanner::new(source);
        scanner.scan_tokens();
        let lines = source.chars().filter(|c| *c == '\n').count() + 1;
        let last = scanner.tokens.last().unwrap();
        assert_eq!(*last, plain(TokenType::EOF, "\0", lines));
        assert_eq!(scanner.line, lines);
        let eofs = scanner
            .tokens
            .iter()
            .filter(|token| token.token == TokenType::EOF)
            .count();
        assert_eq!(eofs, 1);
    }
}

#[test]
fn whitespace_yields_only_eof_and_no_error() {
    let (tokens, errors) = scan("\t   \t  \t");
    assert_eq!(tokens, vec![plain(TokenType::EOF, "\0", 1)]);
    assert!(errors.is_empty());
}

#[test]
fn comment_yields_only_eof_and_no_error() {
    let (tokens, errors) = scan("// this is a comment");
    assert_eq!(tokens, vec![plain(TokenType::EOF, "\0", 1)]);
    assert!(errors.is_empty());
}

#[test]
fn comment_ends_at_the_line_feed() {
    let (tokens, errors) = scan("<= // trailing comment\n+");
    assert_eq!(
        tokens,
        vec![
            plain(TokenType::LessEqual, "<=", 1),
            plain(TokenType::Plus, "+", 2),
            plain(TokenType::EOF, "\0", 2),
        ]
    );
    assert!(errors.is_empty());
}

#[test]
fn trailing_comment_leaves_two_tokens() {
    let (tokens, _) = scan("<= // trailing comment");
    assert_eq!(
        tokens,
        vec![
            plain(TokenType::LessEqual, "<=", 1),
            plain(TokenType::EOF, "\0", 1)
        ]
    );
}

#[test]
fn punctuation_is_one_token_each() {
    assert_eq!(
        kinds("(){},.-+;*/"),
        vec![
            TokenType::LeftParen,
            TokenType::RightParen,
            TokenType::LeftBrace,
            TokenType::RightBrace,
            TokenType::Comma,
            TokenType::Dot,
            TokenType::Minus,
            TokenType::Plus,
            TokenType::Semicolon,
            TokenType::Star,
            TokenType::Slash,
            TokenType::EOF,
        ]
    );
}

#[test]
fn operators_take_a_following_equal_sign() {
    assert_eq!(
        kinds("! != = == > >= < <="),
        vec![
            TokenType::Bang,
            TokenType::BangEqual,
            TokenType::Equal,
            TokenType::EqualEqual,
            TokenType::Greater,
            TokenType::GreaterEqual,
            TokenType::Less,
            TokenType::LessEqual,
            TokenType::EOF,
        ]
    );
    assert_eq!(lexemes("!==="), vec!["!=", "==", "\0"]);
    assert_eq!(lexemes("<==>"), vec!["<=", "=", ">", "\0"]);
}

#[test]
fn operator_leaves_what_follows_untouched() {
    let (tokens, errors) = scan("=a");
    assert_eq!(
        tokens,
        vec![
            plain(TokenType::Equal, "=", 1),
            plain(TokenType::Identifier, "a", 1),
            plain(TokenType::EOF, "\0", 1),
        ]
    );
    assert!(errors.is_empty());
}

#[test]
fn slash_alone_is_a_token() {
    let (tokens, errors) = scan("8/2");
    assert_eq!(
        tokens,
        vec![
            Token {
                token: TokenType::Number,
                line: 1,
                lexeme: "8".into(),
                literal: Some(decimal("8")),
            },
            plain(TokenType::Slash, "/", 1),
            Token {
                token: TokenType::Number,
                line: 1,
                lexeme: "2".into(),
                literal: Some(decimal("2")),
            },
            plain(TokenType::EOF, "\0", 1),
        ]
    );
    assert!(errors.is_empty());
}

#[test]
fn identifier_is_the_longest_run() {
    assert_eq!(lexemes("_random"), vec!["_random", "\0"]);
    assert_eq!(kinds("_random"), vec![TokenType::Identifier, TokenType::EOF]);
    assert_eq!(lexemes("classify"), vec!["classify", "\0"]);
    assert_eq!(kinds("classify"), vec![TokenType::Identifier, TokenType::EOF]);
    assert_eq!(lexemes("snake_case_9 x"), vec!["snake_case_9", "x", "\0"]);
    assert_eq!(lexemes("a1+b2"), vec!["a1", "+", "b2", "\0"]);
}

#[test]
fn keyword_is_matched_exactly() {
    assert_eq!(kinds("while"), vec![TokenType::While, TokenType::EOF]);
    assert_eq!(kinds("whilex"), vec![TokenType::Identifier, TokenType::EOF]);
    assert_eq!(lexemes("whilex"), vec!["whilex", "\0"]);
    assert_eq!(kinds("While"), vec![TokenType::Identifier, TokenType::EOF]);
    assert_eq!(kinds("whil"), vec![TokenType::Identifier, TokenType::EOF]);
}

#[test]
fn every_keyword_has_its_category() {
    assert_eq!(
        kinds("and class else false fun for if nil or print return super this true var while"),
        vec![
            TokenType::And,
            TokenType::Class,
            TokenType::Else,
            TokenType::False,
            TokenType::Fun,
            TokenType::For,
            TokenType::If,
            TokenType::Nil,
            TokenType::Or,
            TokenType::Print,
            TokenType::Return,
            TokenType::Super,
            TokenType::This,
            TokenType::True,
            TokenType::Var,
            TokenType::While,
            TokenType::EOF,
        ]
    );
}

#[test]
fn number_decodes_to_its_value() {
    let (tokens, errors) = scan("3.14");
    assert!(errors.is_empty());
    assert_eq!(tokens.len(), 2);
    assert_eq!(tokens[0].token, TokenType::Number);
    let value: f64 = match &tokens[0].literal {
        Some(LiteralType::Number(number)) => number.to_string().parse().unwrap(),
        other => panic!("no number: {:?}", other),
    };
    assert_eq!(value, 3.14);

    let (tokens, _) = scan("3");
    let value: f64 = match &tokens[0].literal {
        Some(LiteralType::Number(number)) => number.to_string().parse().unwrap(),
        other => panic!("no number: {:?}", other),
    };
    assert_eq!(value, 3.0);
}

#[test]
fn number_is_held_in_canonical_form() {
    let (tokens, _) = scan("007.500");
    assert_eq!(
        tokens[0],
        Token {
            token: TokenType::Number,
            line: 1,
            lexeme: "007.500".into(),
            literal: Some(decimal("7.5")),
        }
    );
    let (tokens, _) = scan("1.0");
    assert_eq!(tokens[0].literal, Some(decimal("1")));
    let (tokens, _) = scan("0.0");
    assert_eq!(tokens[0].literal, Some(decimal("0")));
}

#[test]
fn number_leaves_a_point_without_digit() {
    assert_eq!(
        kinds("1."),
        vec![TokenType::Number, TokenType::Dot, TokenType::EOF]
    );
    assert_eq!(lexemes("1.abs"), vec!["1", ".", "abs", "\0"]);
    assert_eq!(lexemes("12.5.3"), vec!["12.5", ".", "3", "\0"]);
    assert_eq!(lexemes(".5"), vec![".", "5", "\0"]);
    assert_eq!(lexemes("1..2"), vec!["1", ".", ".", "2", "\0"]);
}

#[test]
fn long_number_is_kept_exactly() {
    let source = "123456789012345678901234567890.000000000000000000001";
    let (tokens, errors) = scan(source);
    assert!(errors.is_empty());
    assert_eq!(tokens[0].lexeme, source);
    match &tokens[0].literal {
        Some(LiteralType::Number(number)) => assert_eq!(number.to_string(), source),
        other => panic!("no number: {:?}", other),
    }
}

#[test]
fn string_may_span_lines() {
    let mut scanner = Scanner::new("\"a\nb\"");
    let (tokens, errors) = scanner.scan_tokens();
    assert!(errors.is_empty());
    assert_eq!(tokens.len(), 2);
    assert_eq!(
        tokens[0],
        Token {
            token: TokenType::Str,
            line: 1,
            lexeme: "\"a\nb\"".into(),
            literal: Some(LiteralType::Str("a\nb".into())),
        }
    );
    assert_eq!(tokens[1], plain(TokenType::EOF, "\0", 2));
    assert_eq!(scanner.line, 2);
}

#[test]
fn empty_string_is_a_token() {
    let (tokens, errors) = scan("\"\"");
    assert!(errors.is_empty());
    assert_eq!(
        tokens[0],
        Token {
            token: TokenType::Str,
            line: 1,
            lexeme: "\"\"".into(),
            literal: Some(LiteralType::Str("".into())),
        }
    );
}

#[test]
fn unterminated_string_yields_no_token() {
    let (tokens, errors) = scan("\"Hello, world!");
    assert_eq!(tokens, vec![plain(TokenType::EOF, "\0", 1)]);
    assert_eq!(errors, vec![ScannerError::UnterminatedString { line: 1 }]);
}

#[test]
fn unterminated_string_is_reported_on_the_last_line() {
    let (tokens, errors) = scan("1 \"open\n\n");
    assert_eq!(tokens.len(), 2);
    assert_eq!(tokens[1], plain(TokenType::EOF, "\0", 3));
    assert_eq!(errors, vec![ScannerError::UnterminatedString { line: 3 }]);
}

#[test]
fn errors_are_collected_and_scanning_goes_on() {
    let (tokens, errors) = scan("() {} # $ \"hi");
    assert_eq!(
        errors,
        vec![
            ScannerError::UnexpectedToken {
                lexeme: "#".into(),
                line: 1
            },
            ScannerError::UnexpectedToken {
                lexeme: "$".into(),
                line: 1
            },
            ScannerError::UnterminatedString { line: 1 },
        ]
    );
    assert_eq!(
        tokens,
        vec![
            plain(TokenType::LeftParen, "(", 1),
            plain(TokenType::RightParen, ")", 1),
            plain(TokenType::LeftBrace, "{", 1),
            plain(TokenType::RightBrace, "}", 1),
            plain(TokenType::EOF, "\0", 1),
        ]
    );
}

#[test]
fn scanning_goes_on_after_an_error() {
    let (tokens, errors) = scan("1 @ 2\n? 3");
    assert_eq!(lexemes("1 @ 2\n? 3"), vec!["1", "2", "3", "\0"]);
    assert_eq!(tokens[2].line, 2);
    assert_eq!(
        errors,
        vec![
            ScannerError::UnexpectedToken {
                lexeme: "@".into(),
                line: 1
            },
            ScannerError::UnexpectedToken {
                lexeme: "?".into(),
                line: 2
            },
        ]
    );
}

#[test]
fn character_outside_ascii_is_unexpected() {
    let (tokens, errors) = scan("é1");
    assert_eq!(lexemes("é1"), vec!["1", "\0"]);
    assert_eq!(tokens.len(), 2);
    assert_eq!(
        errors,
        vec![ScannerError::UnexpectedToken {
            lexeme: "é".into(),
            line: 1
        }]
    );
}

#[test]
fn scan_token_takes_one_lexeme() {
    let mut scanner = Scanner::new("var x");
    assert_eq!(scanner.scan_token(), Ok(()));
    assert_eq!(scanner.tokens, vec![plain(TokenType::Var, "var", 1)]);
    assert_eq!(scanner.start, 0);
    assert_eq!(scanner.current, 3);
    assert_eq!(scanner.scan_token(), Ok(()));
    assert_eq!(scanner.tokens.len(), 1);
    assert_eq!(scanner.start, 3);
    assert_eq!(scanner.current, 4);
    assert_eq!(scanner.scan_token(), Ok(()));
    assert_eq!(scanner.tokens[1], plain(TokenType::Identifier, "x", 1));
    assert!(scanner.is_at_end());
}

#[test]
fn scan_token_at_the_end_changes_nothing() {
    let mut scanner = Scanner::new("+");
    assert_eq!(scanner.scan_token(), Ok(()));
    assert_eq!(scanner.scan_token(), Err(ScannerError::UnexpectedEof));
    assert_eq!(scanner.tokens, vec![plain(TokenType::Plus, "+", 1)]);
    assert_eq!(scanner.current, 1);
    assert_eq!(scanner.line, 1);
    assert!(scanner.errors.is_empty());
}

#[test]
fn number_that_denotes_none_is_invalid() {
    let mut scanner = Scanner::new("a1");
    scanner.current = 1;
    assert_eq!(
        scanner.add_number_token(),
        Err(ScannerError::InvalidNumber {
            received: "a1".into(),
            line: 1
        })
    );
    assert!(scanner.tokens.is_empty());
    assert_eq!(scanner.current, 2);
}

#[test]
fn adders_scan_the_rest_of_a_lexeme() {
    let mut scanner = Scanner::new("x_1 + 2");
    scanner.current = 1;
    assert_eq!(scanner.add_identifier_token(), Ok(()));
    assert_eq!(scanner.tokens, vec![plain(TokenType::Identifier, "x_1", 1)]);

    let mut scanner = Scanner::new("\"ab\" c");
    scanner.current = 1;
    assert_eq!(scanner.add_string_token(), Ok(()));
    assert_eq!(scanner.current, 4);
    assert_eq!(
        scanner.tokens[0].literal,
        Some(LiteralType::Str("ab".into()))
    );

    let mut scanner = Scanner::new("12.50;");
    scanner.current = 1;
    assert_eq!(scanner.add_number_token(), Ok(()));
    assert_eq!(scanner.current, 5);
    assert_eq!(scanner.tokens[0].literal, Some(decimal("12.5")));
}

#[test]
fn source_slice_is_the_text_between() {
    let scanner = Scanner::new("Hello, world!");
    assert_eq!(scanner.get_source_slice(7, 12), "world");
    assert_eq!(scanner.get_source_slice(3, 3), "");
    assert_eq!(scanner.get_source_slice(0, 13), "Hello, world!");
}

#[test]
fn new_scanner_is_fresh() {
    let scanner = Scanner::new("ab");
    assert_eq!(scanner.source, vec!['a', 'b']);
    assert!(scanner.tokens.is_empty());
    assert!(scanner.errors.is_empty());
    assert_eq!(scanner.start, 0);
    assert_eq!(scanner.current, 0);
    assert_eq!(scanner.line, 1);
}
