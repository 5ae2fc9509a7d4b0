//! Tokens: what the scanner hands to the parser.

use crate::literal_type::{LiteralType, LiteralView};
use crate::token_type::TokenType;
use vstd::prelude::*;

verus! {

/// A lexical unit of the source text.
#[derive(Debug, PartialEq)]
pub struct Token {
    /// The category of the token.
    pub token: TokenType,
    /// The line, counted from 1, on which the token begins.
    pub line: usize,
    /// The source text that forms the token.
    pub lexeme: String,
    /// The value that a string or a number literal denotes.
    pub literal: Option<LiteralType>,
}

/// What a [`Token`] stands for.
pub struct TokenView {
    pub token: TokenType,
    pub line: nat,
    pub lexeme: Seq<char>,
    pub literal: Option<LiteralView>,
}

impl View for Token {
    type V = TokenView;

    open spec fn view(&self) -> TokenView {
        TokenView {
            token: self.token,
            line: self.line as nat,
            lexeme: self.lexeme@,
            literal: literal_view(self.literal),
        }
    }
}

/// What the literal of a token stands for, where the token has one.
pub open spec fn literal_view(literal: Option<LiteralType>) -> Option<LiteralView> {
    match literal {
        Some(literal) => Some(literal@),
        None => None,
    }
}

/// What a sequence of tokens stands for, token by token.
pub open spec fn token_views(tokens: Seq<Token>) -> Seq<TokenView> {
    tokens.map_values(|token: Token| token@)
}

impl TokenView {
    /// Whether the token is as the scanner makes them: its lexeme is not
    /// empty, a string token has a string for its value, a number token a
    /// number in canonical form, and a token of another category no value.
    pub open spec fn is_well_formed(self) -> bool {
        &&& self.lexeme.len() > 0
        &&& match self.token {
            TokenType::Str => self.literal matches Some(LiteralView::Str(_)),
            TokenType::Number => self.literal matches Some(LiteralView::Number(value))
                && value.is_canonical(),
            _ => self.literal is None,
        }
    }

    /// The token that marks the end of the input, reached on `line`.
    pub open spec fn eof(line: nat) -> TokenView {
        TokenView { token: TokenType::EOF, line, lexeme: seq!['\0'], literal: None }
    }
}

impl Token {
    /// The token written out: its lexeme.
    pub fn to_string(&self) -> (text: String)
        ensures
            text@ == self@.lexeme,
    {
        self.lexeme.clone()
    }
}

impl Clone for Token {
    fn clone(&self) -> (r: Self)
        ensures
            r == *self,
    {
        Token {
            token: self.token,
            line: self.line,
            lexeme: self.lexeme.clone(),
            literal: match &self.literal {
                Some(literal) => Some(literal.clone()),
                None => None,
            },
        }
    }
}

} // verus!
