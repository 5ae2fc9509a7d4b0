//! The lexical rules: what scanning a text yields, stated over the text as
//! a sequence of characters.
//!
//! Scanning goes through the text from left to right. At each position
//! [`lex`] says what begins there: a token, an error, or something to pass
//! over, and how many characters it takes. [`scan`] strings these together
//! and ends the tokens with the end-of-input token.

use crate::decimal::numeral_value;
use crate::literal_type::LiteralView;
use crate::scanner::ScannerErrorView;
use crate::text::{count_newlines, is_alphabetic, is_digit, remaining, run_len, CharClass};
use crate::token::TokenView;
use crate::token_type::TokenType;
use vstd::prelude::*;

verus! {

/// What begins at one position of the text.
pub struct Lexed {
    /// The token recognised, if one was.
    pub token: Option<TokenView>,
    /// The error found, if one was. Never both a token and an error.
    pub error: Option<ScannerErrorView>,
    /// The number of characters taken, at least one.
    pub width: nat,
    /// The line on which the next character stands.
    pub line: nat,
}

/// Characters to pass over: white space or a comment.
pub open spec fn skipped(width: nat, line: nat) -> Lexed {
    Lexed { token: None, error: None, width, line }
}

/// A token of `width` characters that begins at `pos` on `line`.
pub open spec fn token_at(
    src: Seq<char>,
    pos: int,
    width: nat,
    line: nat,
    token: TokenType,
    literal: Option<LiteralView>,
) -> TokenView {
    TokenView { token, line, lexeme: src.subrange(pos, pos + width), literal }
}

/// A token on one line.
pub open spec fn emitted(
    src: Seq<char>,
    pos: int,
    width: nat,
    line: nat,
    token: TokenType,
    literal: Option<LiteralView>,
) -> Lexed {
    Lexed { token: Some(token_at(src, pos, width, line, token, literal)), error: None, width, line }
}

/// Whether the character after the one at `pos` is `c`.
pub open spec fn followed_by(src: Seq<char>, pos: int, c: char) -> bool {
    pos + 1 < src.len() && src[pos + 1] == c
}

/// The number of characters of a number literal that come after those
/// before `from`, of which the last is a digit: the digits that follow and,
/// where a point and a digit come next, the point and the digits after it.
/// A point that no digit follows is left where it is.
pub open spec fn number_rest(src: Seq<char>, from: int) -> nat {
    let digits = run_len(src, from, CharClass::Digit);
    let point = from + digits;
    if point + 1 < src.len() && src[point] == '.' && is_digit(src[point + 1]) {
        digits + 1 + run_len(src, point + 1, CharClass::Digit)
    } else {
        digits
    }
}

/// A number literal that begins with the digit at `pos`.
pub open spec fn lex_number(src: Seq<char>, pos: int, line: nat) -> Lexed {
    let width = 1 + number_rest(src, pos + 1);
    let value = numeral_value(src.subrange(pos, pos + width));
    emitted(src, pos, width, line, TokenType::Number, Some(LiteralView::Number(value)))
}

/// An identifier or a keyword that begins with the character at `pos`: the
/// longest run of word characters, a keyword where it spells one.
pub open spec fn lex_word(src: Seq<char>, pos: int, line: nat) -> Lexed {
    let width = 1 + run_len(src, pos + 1, CharClass::Word);
    let token = TokenType::of_word(src.subrange(pos, pos + width));
    emitted(src, pos, width, line, token, None)
}

/// A string literal that begins with the quote at `pos`. It runs to the
/// next quote, over line feeds too; its value is what stands between the
/// quotes. Without a closing quote it is an error, found on the last line.
pub open spec fn lex_string(src: Seq<char>, pos: int, line: nat) -> Lexed {
    let body = run_len(src, pos + 1, CharClass::Not('"'));
    let close = pos + 1 + body;
    let last_line = line + count_newlines(src, pos + 1, close);
    if close < src.len() {
        let value = LiteralView::Str(src.subrange(pos + 1, close));
        Lexed {
            token: Some(token_at(src, pos, body + 2, line, TokenType::Str, Some(value))),
            error: None,
            width: body + 2,
            line: last_line,
        }
    } else {
        Lexed {
            token: None,
            error: Some(ScannerErrorView::UnterminatedString { line: last_line }),
            width: body + 1,
            line: last_line,
        }
    }
}

/// What begins at `pos`, a position inside the text, on `line`.
pub open spec fn lex(src: Seq<char>, pos: int, line: nat) -> Lexed
    recommends
        0 <= pos < src.len(),
{
    let c = src[pos];
    if let Some(token) = TokenType::of_punctuation(c) {
        emitted(src, pos, 1, line, token, None)
    } else if let Some((alone, with_equal)) = TokenType::of_operator(c) {
        if followed_by(src, pos, '=') {
            emitted(src, pos, 2, line, with_equal, None)
        } else {
            emitted(src, pos, 1, line, alone, None)
        }
    } else if c == '/' {
        if followed_by(src, pos, '/') {
            skipped(2 + run_len(src, pos + 2, CharClass::Not('\n')), line)
        } else {
            emitted(src, pos, 1, line, TokenType::Slash, None)
        }
    } else if c == ' ' || c == '\r' || c == '\t' {
        skipped(1, line)
    } else if c == '\n' {
        skipped(1, line + 1)
    } else if c == '"' {
        lex_string(src, pos, line)
    } else if is_digit(c) {
        lex_number(src, pos, line)
    } else if is_alphabetic(c) || c == '_' {
        lex_word(src, pos, line)
    } else {
        Lexed {
            token: None,
            error: Some(ScannerErrorView::UnexpectedToken { lexeme: seq![c], line }),
            width: 1,
            line,
        }
    }
}

/// What scanning a stretch of text yields.
pub struct Scanned {
    /// The tokens, in the order of the text.
    pub tokens: Seq<TokenView>,
    /// The errors, in the order of the text.
    pub errors: Seq<ScannerErrorView>,
    /// The line on which the stretch ends.
    pub line: nat,
}

/// The tokens and errors of the text from `pos` to its end, where `pos` is
/// on `line`.
pub open spec fn scan_from(src: Seq<char>, pos: int, line: nat) -> Scanned
    decreases remaining(src.len(), pos),
{
    if 0 <= pos < src.len() {
        let first = lex(src, pos, line);
        let rest = scan_from(src, pos + first.width, first.line);
        Scanned {
            tokens: match first.token {
                Some(token) => seq![token] + rest.tokens,
                None => rest.tokens,
            },
            errors: match first.error {
                Some(error) => seq![error] + rest.errors,
                None => rest.errors,
            },
            line: rest.line,
        }
    } else {
        Scanned { tokens: Seq::empty(), errors: Seq::empty(), line }
    }
}

/// What scanning the whole of `src` yields: the tokens of the text, then
/// the end-of-input token on the line where the text ends; and the errors.
pub open spec fn scan(src: Seq<char>) -> Scanned {
    let body = scan_from(src, 0, 1);
    Scanned {
        tokens: body.tokens.push(TokenView::eof(body.line)),
        errors: body.errors,
        line: body.line,
    }
}

} // verus!
