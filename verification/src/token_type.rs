//! The categories of tokens.

use crate::text::spells;
use vstd::prelude::*;

verus! {

/// The category of a token.
#[derive(Clone, Copy, Debug, PartialEq, Eq, Hash, Structural)]
pub enum TokenType {
    // Single-character tokens.
    LeftParen,
    RightParen,
    LeftBrace,
    RightBrace,
    Comma,
    Dot,
    Minus,
    Plus,
    Semicolon,
    Slash,
    Star,
    // One or two character tokens.
    Bang,
    BangEqual,
    Equal,
    EqualEqual,
    Greater,
    GreaterEqual,
    Less,
    LessEqual,
    // Literals.
    Identifier,
    Str,
    Number,
    // Keywords.
    And,
    Class,
    Else,
    False,
    Fun,
    For,
    If,
    Nil,
    Or,
    Print,
    Return,
    Super,
    This,
    True,
    Var,
    While,
    /// The end of the input.
    EOF,
}

impl TokenType {
    /// The category of the token that the single character `c` forms by
    /// itself, whatever follows it.
    pub open spec fn of_punctuation(c: char) -> Option<TokenType> {
        match c {
            '(' => Some(TokenType::LeftParen),
            ')' => Some(TokenType::RightParen),
            '{' => Some(TokenType::LeftBrace),
            '}' => Some(TokenType::RightBrace),
            ',' => Some(TokenType::Comma),
            '.' => Some(TokenType::Dot),
            '-' => Some(TokenType::Minus),
            '+' => Some(TokenType::Plus),
            ';' => Some(TokenType::Semicolon),
            '*' => Some(TokenType::Star),
            _ => None,
        }
    }

    /// For a character that forms one operator alone and another when `=`
    /// follows it: the two categories, the one-character operator first.
    pub open spec fn of_operator(c: char) -> Option<(TokenType, TokenType)> {
        match c {
            '!' => Some((TokenType::Bang, TokenType::BangEqual)),
            '=' => Some((TokenType::Equal, TokenType::EqualEqual)),
            '<' => Some((TokenType::Less, TokenType::LessEqual)),
            '>' => Some((TokenType::Greater, TokenType::GreaterEqual)),
            _ => None,
        }
    }

    /// The reserved word that `text` spells, if it spells one.
    pub open spec fn of_keyword(text: Seq<char>) -> Option<TokenType> {
        if text == "and"@ {
            Some(TokenType::And)
        } else if text == "class"@ {
            Some(TokenType::Class)
        } else if text == "else"@ {
            Some(TokenType::Else)
        } else if text == "true"@ {
            Some(TokenType::True)
        } else if text == "false"@ {
            Some(TokenType::False)
        } else if text == "for"@ {
            Some(TokenType::For)
        } else if text == "fun"@ {
            Some(TokenType::Fun)
        } else if text == "if"@ {
            Some(TokenType::If)
        } else if text == "nil"@ {
            Some(TokenType::Nil)
        } else if text == "or"@ {
            Some(TokenType::Or)
        } else if text == "print"@ {
            Some(TokenType::Print)
        } else if text == "return"@ {
            Some(TokenType::Return)
        } else if text == "super"@ {
            Some(TokenType::Super)
        } else if text == "this"@ {
            Some(TokenType::This)
        } else if text == "var"@ {
            Some(TokenType::Var)
        } else if text == "while"@ {
            Some(TokenType::While)
        } else {
            None
        }
    }

    /// The category of the token that `c` forms by itself.
    pub fn punctuation(c: char) -> (r: Option<TokenType>)
        ensures
            r == TokenType::of_punctuation(c),
    {
        match c {
            '(' => Some(TokenType::LeftParen),
            ')' => Some(TokenType::RightParen),
            '{' => Some(TokenType::LeftBrace),
            '}' => Some(TokenType::RightBrace),
            ',' => Some(TokenType::Comma),
            '.' => Some(TokenType::Dot),
            '-' => Some(TokenType::Minus),
            '+' => Some(TokenType::Plus),
            ';' => Some(TokenType::Semicolon),
            '*' => Some(TokenType::Star),
            _ => None,
        }
    }

    /// The categories of the operators that begin with `c`: the operator
    /// that `c` forms alone, and the one that it forms with `=`.
    pub fn operator(c: char) -> (r: Option<(TokenType, TokenType)>)
        ensures
            r == TokenType::of_operator(c),
    {
        match c {
            '!' => Some((TokenType::Bang, TokenType::BangEqual)),
            '=' => Some((TokenType::Equal, TokenType::EqualEqual)),
            '<' => Some((TokenType::Less, TokenType::LessEqual)),
            '>' => Some((TokenType::Greater, TokenType::GreaterEqual)),
            _ => None,
        }
    }

    /// The category of the word that the characters of `chars` from `start`
    /// up to `end` spell.
    pub fn word(chars: &Vec<char>, start: usize, end: usize) -> (r: TokenType)
        requires
            start <= end <= chars.len(),
        ensures
            r == TokenType::of_word(chars@.subrange(start as int, end as int)),
    {
        if spells(chars, start, end, "and") {
            TokenType::And
        } else if spells(chars, start, end, "class") {
            TokenType::Class
        } else if spells(chars, start, end, "else") {
            TokenType::Else
        } else if spells(chars, start, end, "true") {
            TokenType::True
        } else if spells(chars, start, end, "false") {
            TokenType::False
        } else if spells(chars, start, end, "for") {
            TokenType::For
        } else if spells(chars, start, end, "fun") {
            TokenType::Fun
        } else if spells(chars, start, end, "if") {
            TokenType::If
        } else if spells(chars, start, end, "nil") {
            TokenType::Nil
        } else if spells(chars, start, end, "or") {
            TokenType::Or
        } else if spells(chars, start, end, "print") {
            TokenType::Print
        } else if spells(chars, start, end, "return") {
            TokenType::Return
        } else if spells(chars, start, end, "super") {
            TokenType::Super
        } else if spells(chars, start, end, "this") {
            TokenType::This
        } else if spells(chars, start, end, "var") {
            TokenType::Var
        } else if spells(chars, start, end, "while") {
            TokenType::While
        } else {
            TokenType::Identifier
        }
    }

    /// The category of a word: its keyword, or `Identifier`.
    pub open spec fn of_word(text: Seq<char>) -> TokenType {
        match TokenType::of_keyword(text) {
            Some(keyword) => keyword,
            None => TokenType::Identifier,
        }
    }

    /// Whether a token of this category can be part of an expression.
    pub fn is_in_expression(self) -> (r: bool)
        ensures
            r == self.in_expression(),
    {
        match self {
            TokenType::BangEqual
            | TokenType::EqualEqual
            | TokenType::Greater
            | TokenType::GreaterEqual
            | TokenType::Less
            | TokenType::LessEqual
            | TokenType::Minus
            | TokenType::Plus
            | TokenType::Slash
            | TokenType::Star
            | TokenType::Bang
            | TokenType::False
            | TokenType::True
            | TokenType::Nil
            | TokenType::Number
            | TokenType::Str
            | TokenType::LeftParen
            | TokenType::RightParen => true,
            _ => false,
        }
    }

    /// Whether a token of this category can be part of an expression, that
    /// is, whether some rule of the expression grammar consumes it.
    pub open spec fn in_expression(self) -> bool {
        match self {
            TokenType::BangEqual
            | TokenType::EqualEqual
            | TokenType::Greater
            | TokenType::GreaterEqual
            | TokenType::Less
            | TokenType::LessEqual
            | TokenType::Minus
            | TokenType::Plus
            | TokenType::Slash
            | TokenType::Star
            | TokenType::Bang
            | TokenType::False
            | TokenType::True
            | TokenType::Nil
            | TokenType::Number
            | TokenType::Str
            | TokenType::LeftParen
            | TokenType::RightParen => true,
            _ => false,
        }
    }

    /// Whether a statement begins with a token of this category.
    pub fn is_statement_start(self) -> (r: bool)
        ensures
            r == self.starts_statement(),
    {
        match self {
            TokenType::Class
            | TokenType::Fun
            | TokenType::Var
            | TokenType::For
            | TokenType::If
            | TokenType::While
            | TokenType::Print
            | TokenType::Return => true,
            _ => false,
        }
    }

    /// Whether a statement begins with a token of this category.
    pub open spec fn starts_statement(self) -> bool {
        match self {
            TokenType::Class
            | TokenType::Fun
            | TokenType::Var
            | TokenType::For
            | TokenType::If
            | TokenType::While
            | TokenType::Print
            | TokenType::Return => true,
            _ => false,
        }
    }
}

} // verus!
