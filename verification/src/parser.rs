//! The parser: from tokens to one expression tree.

use crate::expr::{Expr, ExprView};
use crate::grammar::{
    ends_ahead, next_boundary, parse_binary, parse_chain, parse_expression, parse_operand,
    parse_primary, parse_unary, resume_point, stops_ahead, Level, Parsed,
};
use crate::grammar_laws::lemma_expression_is_sound;
use crate::literal_type::LiteralType;
use crate::text::remaining;
use crate::token::{token_views, Token, TokenView};
use crate::token_type::TokenType;
use vstd::prelude::*;
use vstd::string::StringExecFns;

verus! {

/// What can go wrong while parsing.
#[derive(Debug, PartialEq)]
pub enum ParserError {
    /// A token other than the one that had to come.
    UnexpectedToken { found: Token, expected: Token, line: usize },
    /// The tokens do not form an expression.
    ParseError { message: String },
    /// A token with which no expression begins.
    PrimaryError { line: usize },
    /// A number or a string token without its value.
    UndefinedLiteral { line: usize },
}

/// What a [`ParserError`] stands for.
pub enum ParserErrorView {
    UnexpectedToken { found: TokenView, expected: TokenView, line: nat },
    ParseError { message: Seq<char> },
    PrimaryError { line: nat },
    UndefinedLiteral { line: nat },
}

impl View for ParserError {
    type V = ParserErrorView;

    open spec fn view(&self) -> ParserErrorView {
        match self {
            ParserError::UnexpectedToken { found, expected, line } => {
                ParserErrorView::UnexpectedToken {
                    found: found@,
                    expected: expected@,
                    line: *line as nat,
                }
            },
            ParserError::ParseError { message } => ParserErrorView::ParseError {
                message: message@,
            },
            ParserError::PrimaryError { line } => ParserErrorView::PrimaryError {
                line: *line as nat,
            },
            ParserError::UndefinedLiteral { line } => ParserErrorView::UndefinedLiteral {
                line: *line as nat,
            },
        }
    }
}

/// What the result of a parse stands for.
pub open spec fn result_view(result: Result<Expr, ParserError>) -> Result<
    ExprView,
    ParserErrorView,
> {
    match result {
        Ok(expr) => Ok(expr@),
        Err(error) => Err(error@),
    }
}

/// Parsing again yields the same: two parses that begin at the same
/// position of the same tokens leave the tokens as they were, end at the
/// same position and return the same tree or the same error.
pub proof fn lemma_parse_again_yields_same(
    first: Parser,
    first_after: Parser,
    first_result: Result<Expr, ParserError>,
    second: Parser,
    second_after: Parser,
    second_result: Result<Expr, ParserError>,
)
    requires
        first.tokens() == second.tokens(),
        first.position() == second.position(),
        first_after.follows(
            &first,
            first_result,
            parse_expression(first.tokens(), first.position()),
        ),
        second_after.follows(
            &second,
            second_result,
            parse_expression(second.tokens(), second.position()),
        ),
    ensures
        first_after.tokens() == first.tokens(),
        second_after.tokens() == first.tokens(),
        first_after.position() == second_after.position(),
        result_view(first_result) == result_view(second_result),
{
}

/// A parser: the tokens, and the place among them that parsing has reached.
pub struct Parser<'a> {
    tokens: &'a Vec<Token>,
    current: usize,
}

impl<'a> Parser<'a> {
    /// What the tokens stand for.
    pub closed spec fn tokens(&self) -> Seq<TokenView> {
        token_views(self.tokens@)
    }

    /// The index of the next token to look at.
    pub closed spec fn position(&self) -> nat {
        self.current as nat
    }

    /// Whether parsing can go on: at the position or after it there is a
    /// token that no rule takes, as the end-of-input token is.
    pub open spec fn can_parse(&self) -> bool {
        stops_ahead(self.tokens(), self.position() as int)
    }

    /// Whether `self` and `result` are what becomes of `before` when a rule
    /// yields `parsed` at its position.
    pub open spec fn follows(
        &self,
        before: &Parser,
        result: Result<Expr, ParserError>,
        parsed: Parsed,
    ) -> bool {
        &&& self.tokens() == before.tokens()
        &&& self.position() == before.position() + parsed.consumed
        &&& self.can_parse()
        &&& result_view(result) == parsed.result
    }

    /// A parser at the first of `tokens`.
    pub fn new(tokens: &'a Vec<Token>) -> (parser: Self)
        ensures
            parser.tokens() == token_views(tokens@),
            parser.position() == 0,
    {
        Self { tokens, current: 0 }
    }

    /// Whether parsing can go on, that is, whether [`Parser::parse`] may be
    /// called.
    pub fn is_ready(&self) -> (r: bool)
        ensures
            r == self.can_parse(),
    {
        let mut i: usize = self.current;
        while i < self.tokens.len()
            invariant
                self.current <= i,
                forall|j: int|
                    self.current <= j < i && j < self.tokens().len()
                        ==> (#[trigger] self.tokens()[j]).token.in_expression(),
            decreases self.tokens.len() - i,
        {
            if !self.tokens[i].token.is_in_expression() {
                assert(!self.tokens()[i as int].token.in_expression());
                return true;
            }
            i += 1;
        }
        false
    }

    /// Parses one expression from the position on. Returns its tree, or the
    /// first error; nothing is parsed after an error. In the tree every
    /// operator stands where the grammar allows it.
    pub fn parse(&mut self) -> (r: Result<Expr, ParserError>)
        requires
            old(self).can_parse(),
        ensures
            final(self).follows(
                old(self),
                r,
                parse_expression(old(self).tokens(), old(self).position()),
            ),
            r matches Ok(expr) ==> expr@.is_well_formed(),
    {
        proof {
            lemma_expression_is_sound(self.tokens(), self.position());
        }
        self.expression()
    }

    /// Skips to where a statement may begin: the way to take up parsing
    /// again after an error. [`Parser::parse`] does not call it: a parse
    /// ends with its first error.
    pub fn synchronise(&mut self)
        requires
            ends_ahead(old(self).tokens(), old(self).position() as int),
        ensures
            final(self).tokens() == old(self).tokens(),
            final(self).position() == resume_point(old(self).tokens(), old(self).position()),
            ends_ahead(final(self).tokens(), final(self).position() as int),
            final(self).can_parse(),
    {
        if self.is_at_end() {
            return;
        }
        self.advance();
        while !self.is_at_end()
            invariant
                self.tokens == old(self).tokens,
                0 < self.current < self.tokens.len(),
                ends_ahead(self.tokens(), self.current as int),
                next_boundary(self.tokens(), self.position()) == resume_point(
                    old(self).tokens(),
                    old(self).position(),
                ),
            ensures
                self.tokens == old(self).tokens,
                self.current < self.tokens.len(),
                ends_ahead(self.tokens(), self.current as int),
                self.position() == resume_point(old(self).tokens(), old(self).position()),
            decreases self.tokens.len() - self.current,
        {
            if self.previous().token == TokenType::Semicolon {
                break;
            }
            if self.peek().token.is_statement_start() {
                break;
            }
            self.advance();
        }
    }

    /// Whether the tokens and the position are as in `before`, but that
    /// `taken` more tokens have been taken.
    spec fn moved(&self, before: &Parser, taken: int) -> bool {
        &&& self.tokens == before.tokens
        &&& self.current == before.current + taken
        &&& self.current < self.tokens.len()
    }

    /// Whether `self` and `result` are what becomes of `before` when a rule
    /// yields `parsed` at its position; the tokens are the very same.
    spec fn yields(
        &self,
        before: &Parser,
        result: Result<Expr, ParserError>,
        parsed: Parsed,
    ) -> bool {
        &&& self.follows(before, result, parsed)
        &&& self.tokens == before.tokens
    }

    /// The number of tokens from the position on.
    spec fn ahead(&self) -> nat {
        remaining(self.tokens@.len(), self.current as int)
    }

    /// The category of the next token.
    spec fn kind(&self) -> TokenType {
        self.tokens@[self.current as int].token
    }

    fn expression(&mut self) -> (r: Result<Expr, ParserError>)
        requires
            old(self).can_parse(),
        ensures
            final(self).yields(
                old(self),
                r,
                parse_expression(old(self).tokens(), old(self).position()),
            ),
        decreases old(self).ahead(), 20nat,
    {
        self.equality()
    }

    fn equality(&mut self) -> (r: Result<Expr, ParserError>)
        requires
            old(self).can_parse(),
        ensures
            final(self).yields(
                old(self),
                r,
                parse_binary(old(self).tokens(), old(self).position(), Level::Equality),
            ),
        decreases old(self).ahead(), 19nat,
    {
        self.binary(Level::Equality)
    }

    fn comparison(&mut self) -> (r: Result<Expr, ParserError>)
        requires
            old(self).can_parse(),
        ensures
            final(self).yields(
                old(self),
                r,
                parse_binary(old(self).tokens(), old(self).position(), Level::Comparison),
            ),
        decreases old(self).ahead(), 15nat,
    {
        self.binary(Level::Comparison)
    }

    fn term(&mut self) -> (r: Result<Expr, ParserError>)
        requires
            old(self).can_parse(),
        ensures
            final(self).yields(
                old(self),
                r,
                parse_binary(old(self).tokens(), old(self).position(), Level::Term),
            ),
        decreases old(self).ahead(), 11nat,
    {
        self.binary(Level::Term)
    }

    fn factor(&mut self) -> (r: Result<Expr, ParserError>)
        requires
            old(self).can_parse(),
        ensures
            final(self).yields(
                old(self),
                r,
                parse_binary(old(self).tokens(), old(self).position(), Level::Factor),
            ),
        decreases old(self).ahead(), 7nat,
    {
        self.binary(Level::Factor)
    }

    /// An operand of the rule `level`: what the next rule yields.
    fn operand(&mut self, level: Level) -> (r: Result<Expr, ParserError>)
        requires
            old(self).can_parse(),
        ensures
            final(self).yields(
                old(self),
                r,
                parse_operand(old(self).tokens(), old(self).position(), level),
            ),
        decreases old(self).ahead(), 17 - 4 * level.rank(),
    {
        match level {
            Level::Equality => self.comparison(),
            Level::Comparison => self.term(),
            Level::Term => self.factor(),
            Level::Factor => self.unary(),
        }
    }

    /// The rule `level`: an operand, then operators of the rule, each with
    /// another operand; the tree grows to the left.
    fn binary(&mut self, level: Level) -> (r: Result<Expr, ParserError>)
        requires
            old(self).can_parse(),
        ensures
            final(self).yields(
                old(self),
                r,
                parse_binary(old(self).tokens(), old(self).position(), level),
            ),
        decreases old(self).ahead(), 18 - 4 * level.rank(),
    {
        let ghost whole = parse_binary(self.tokens(), self.position(), level);
        let mut expr = match self.operand(level) {
            Ok(expr) => expr,
            Err(error) => {
                return Err(error);
            },
        };
        loop
            invariant
                self.tokens == old(self).tokens,
                self.can_parse(),
                old(self).current <= self.current,
                whole == parse_binary(old(self).tokens(), old(self).position(), level),
                ({
                    let rest = parse_chain(self.tokens(), self.position(), level, expr@);
                    &&& whole.result == rest.result
                    &&& old(self).current + whole.consumed == self.current + rest.consumed
                }),
            ensures
                self.yields(old(self), Ok(expr), whole),
            decreases self.ahead(),
        {
            if !self.match_operator(level) {
                break;
            }
            let operator = self.previous().clone();
            let right = match self.operand(level) {
                Ok(right) => right,
                Err(error) => {
                    return Err(error);
                },
            };
            expr = Expr::Binary(Box::new(expr), operator, Box::new(right));
        }
        Ok(expr)
    }

    fn unary(&mut self) -> (r: Result<Expr, ParserError>)
        requires
            old(self).can_parse(),
        ensures
            final(self).yields(
                old(self),
                r,
                parse_unary(old(self).tokens(), old(self).position()),
            ),
        decreases old(self).ahead(), 2nat,
    {
        if self.match_token_type(&[TokenType::Bang, TokenType::Minus]) {
            let operator = self.previous().clone();
            let operand = match self.unary() {
                Ok(operand) => operand,
                Err(error) => {
                    return Err(error);
                },
            };
            return Ok(Expr::Unary(operator, Box::new(operand)));
        }
        self.primary()
    }

    fn primary(&mut self) -> (r: Result<Expr, ParserError>)
        requires
            old(self).can_parse(),
        ensures
            final(self).yields(
                old(self),
                r,
                parse_primary(old(self).tokens(), old(self).position()),
            ),
        decreases old(self).ahead(), 1nat,
    {
        if self.match_token_type(&[TokenType::False]) {
            return Ok(Expr::Literal(LiteralType::Bool(false)));
        }
        if self.match_token_type(&[TokenType::True]) {
            return Ok(Expr::Literal(LiteralType::Bool(true)));
        }
        if self.match_token_type(&[TokenType::Nil]) {
            return Ok(Expr::Literal(LiteralType::Nil));
        }
        if self.match_token_type(&[TokenType::Number, TokenType::Str]) {
            let token = self.previous();
            return match &token.literal {
                Some(value) => Ok(Expr::Literal(value.clone())),
                None => Err(ParserError::UndefinedLiteral { line: token.line }),
            };
        }
        if self.match_token_type(&[TokenType::LeftParen]) {
            let expr = match self.expression() {
                Ok(expr) => expr,
                Err(error) => {
                    return Err(error);
                },
            };
            match self.consume(
                TokenType::RightParen,
                String::from_str("Expected ')' after expression"),
            ) {
                Ok(_) => {},
                Err(error) => {
                    return Err(error);
                },
            }
            return Ok(Expr::Grouping(Box::new(expr)));
        }
        Err(ParserError::PrimaryError { line: self.peek().line })
    }

    /// Takes the next token if it is an operator of the rule `level`, and
    /// says whether it did.
    fn match_operator(&mut self, level: Level) -> (r: bool)
        requires
            old(self).can_parse(),
        ensures
            r == level.has_operator(old(self).kind()),
            final(self).moved(
                old(self),
                if r {
                    1
                } else {
                    0
                },
            ),
            final(self).can_parse(),
    {
        match level {
            Level::Equality => self.match_token_type(
                &[TokenType::BangEqual, TokenType::EqualEqual],
            ),
            Level::Comparison => self.match_token_type(
                &[
                    TokenType::Greater,
                    TokenType::GreaterEqual,
                    TokenType::Less,
                    TokenType::LessEqual,
                ],
            ),
            Level::Term => self.match_token_type(&[TokenType::Minus, TokenType::Plus]),
            Level::Factor => self.match_token_type(&[TokenType::Slash, TokenType::Star]),
        }
    }

    /// Takes the next token if its category is one of `check_token_types`,
    /// and says whether it did. The end-of-input token is never taken.
    fn match_token_type(&mut self, check_token_types: &[TokenType]) -> (r: bool)
        requires
            old(self).can_parse(),
            forall|i: int|
                0 <= i < check_token_types@.len()
                    ==> (#[trigger] check_token_types@[i]).in_expression(),
        ensures
            r == check_token_types@.contains(old(self).kind()),
            final(self).moved(
                old(self),
                if r {
                    1
                } else {
                    0
                },
            ),
            final(self).can_parse(),
    {
        let mut i: usize = 0;
        while i < check_token_types.len()
            invariant
                *self == *old(self),
                self.can_parse(),
                i <= check_token_types@.len(),
                forall|j: int| 0 <= j < i ==> check_token_types@[j] != self.kind(),
                forall|i: int|
                    0 <= i < check_token_types@.len()
                        ==> (#[trigger] check_token_types@[i]).in_expression(),
            decreases check_token_types.len() - i,
        {
            if self.current_eq(check_token_types[i]) {
                self.advance();
                return true;
            }
            i += 1;
        }
        false
    }

    /// Takes the next token if its category is `token_type`; it is an error
    /// with the message `on_fail_msg` if it is not.
    fn consume(
        &mut self,
        token_type: TokenType,
        on_fail_msg: String,
    ) -> (r: Result<&Token, ParserError>)
        requires
            old(self).can_parse(),
            token_type.in_expression(),
        ensures
            final(self).can_parse(),
            old(self).kind() == token_type ==> {
                &&& r == Ok::<&Token, ParserError>(&old(self).tokens@[old(self).current as int])
                &&& final(self).moved(old(self), 1)
            },
            old(self).kind() != token_type ==> {
                &&& r == Err::<&Token, ParserError>(
                    ParserError::ParseError { message: on_fail_msg },
                )
                &&& final(self).moved(old(self), 0)
            },
    {
        if self.match_token_type(&[token_type]) {
            return Ok(self.previous());
        }
        Err(ParserError::ParseError { message: on_fail_msg })
    }

    /// Moves on to the next token, unless the input has ended, and returns
    /// the token before the position.
    fn advance(&mut self) -> (r: &Token)
        requires
            old(self).current < old(self).tokens.len(),
            old(self).kind() == TokenType::EOF ==> old(self).current > 0,
            old(self).kind() != TokenType::EOF ==> old(self).current + 1 < old(self).tokens.len(),
        ensures
            final(self).moved(
                old(self),
                if old(self).kind() == TokenType::EOF {
                    0
                } else {
                    1
                },
            ),
            *r == final(self).tokens@[final(self).current - 1],
    {
        if !self.is_at_end() {
            self.current += 1;
        }
        self.previous()
    }

    /// Whether the next token is of category `check_token` and the input
    /// has not ended.
    fn current_eq(&self, check_token: TokenType) -> (r: bool)
        requires
            self.current < self.tokens.len(),
        ensures
            r == (self.kind() != TokenType::EOF && self.kind() == check_token),
    {
        if self.is_at_end() {
            return false;
        }
        self.peek().token == check_token
    }

    /// Whether the input has ended: whether the next token is the
    /// end-of-input token.
    fn is_at_end(&self) -> (r: bool)
        requires
            self.current < self.tokens.len(),
        ensures
            r == (self.kind() == TokenType::EOF),
    {
        self.peek().token == TokenType::EOF
    }

    /// The next token.
    fn peek(&self) -> (r: &Token)
        requires
            self.current < self.tokens.len(),
        ensures
            *r == self.tokens@[self.current as int],
    {
        &self.tokens[self.current]
    }

    /// The token before the position.
    fn previous(&self) -> (r: &Token)
        requires
            0 < self.current <= self.tokens.len(),
        ensures
            *r == self.tokens@[self.current - 1],
    {
        &self.tokens[self.current - 1]
    }
}

} // verus!
