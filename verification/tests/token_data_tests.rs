use lox_frontend::TokenData;

#[test]
fn should_init_basic_token() {
    let token = TokenData {
        lexeme: "(",
        line: 1,
    };

    assert_eq!(token.to_string(), "'(' on line 1")
}

#[test]
fn should_init_string_token() {
    let token = TokenData {
        lexeme: "\"Hello, world!\"",
        line: 1,
    };

    assert_eq!(token.to_string(), "'\"Hello, world!\"' on line 1")
}

#[test]
fn should_init_number_token() {
    let token = TokenData {
        lexeme: "3.14",
        line: 1,
    };

    assert_eq!(token.to_string(), "'3.14' on line 1")
}

#[test]
fn token_data_writes_every_line_number() {
    let lines = [
        0,
        7,
        9,
        10,
        11,
        99,
        100,
        101,
        1234567890,
        i32::MAX,
        -1,
        -9,
        -10,
        -2147483647,
        i32::MIN,
    ];
    for line in lines {
        let token = TokenData { lexeme: "x", line };
        assert_eq!(token.to_string(), format!("'x' on line {}", line));
    }
}

#[test]
fn token_data_writes_the_lexeme_as_it_is() {
    let token = TokenData {
        lexeme: "",
        line: 3,
    };
    assert_eq!(token.to_string(), "'' on line 3");

    let token = TokenData {
        lexeme: "it's 'quoted' é",
        line: 12,
    };
    assert_eq!(token.to_string(), "'it's 'quoted' é' on line 12");
}
