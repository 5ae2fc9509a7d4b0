//! Expression trees: what the parser produces.

use crate::grammar::{is_unary_operator, Level};
use crate::literal_type::{LiteralType, LiteralView};
use crate::text::push_char;
use crate::token::{Token, TokenView};
use crate::token_type::TokenType;
use vstd::prelude::*;
use vstd::string::StringExecFns;

verus! {

/// An expression. Every node owns its operands.
#[derive(Debug, PartialEq)]
pub enum Expr {
    /// Left operand, operator, right operand.
    Binary(Box<Expr>, Token, Box<Expr>),
    /// An expression in parentheses.
    Grouping(Box<Expr>),
    /// A literal value.
    Literal(LiteralType),
    /// Operator, operand.
    Unary(Token, Box<Expr>),
}

/// What an [`Expr`] stands for.
pub enum ExprView {
    Binary(Box<ExprView>, TokenView, Box<ExprView>),
    Grouping(Box<ExprView>),
    Literal(LiteralView),
    Unary(TokenView, Box<ExprView>),
}

/// The value of a token that is an expression by itself, if it is one.
pub open spec fn value_of(token: TokenView) -> Option<LiteralView> {
    match token.token {
        TokenType::False => Some(LiteralView::Bool(false)),
        TokenType::True => Some(LiteralView::Bool(true)),
        TokenType::Nil => Some(LiteralView::Nil),
        TokenType::Number | TokenType::Str => token.literal,
        _ => None,
    }
}

impl ExprView {
    /// The number of tokens that the tree is written with.
    pub open spec fn width(self) -> nat
        decreases self,
    {
        match self {
            ExprView::Binary(left, _, right) => left.width() + 1 + right.width(),
            ExprView::Grouping(inner) => inner.width() + 2,
            ExprView::Literal(_) => 1,
            ExprView::Unary(_, operand) => 1 + operand.width(),
        }
    }

    /// Whether the tree is what `tokens` say, all of them and in their
    /// order: a literal is one token with that value; a grouping is a `(`,
    /// the tokens of what it holds and a `)`; a prefix operator stands before
    /// the tokens of its operand, and a binary operator between those of
    /// its operands.
    pub open spec fn reads_as(self, tokens: Seq<TokenView>) -> bool
        decreases self,
    {
        &&& tokens.len() == self.width()
        &&& match self {
            ExprView::Binary(left, operator, right) => {
                &&& left.reads_as(tokens.subrange(0, left.width() as int))
                &&& tokens[left.width() as int] == operator
                &&& right.reads_as(tokens.subrange(left.width() as int + 1, tokens.len() as int))
            },
            ExprView::Grouping(inner) => {
                &&& tokens[0].token == TokenType::LeftParen
                &&& tokens[tokens.len() - 1].token == TokenType::RightParen
                &&& inner.reads_as(tokens.subrange(1, tokens.len() - 1))
            },
            ExprView::Literal(value) => value_of(tokens[0]) == Some(value),
            ExprView::Unary(operator, operand) => {
                &&& tokens[0] == operator
                &&& operand.reads_as(tokens.subrange(1, tokens.len() as int))
            },
        }
    }

    /// How tightly the tree holds together: for an expression with a binary
    /// operator the rank of the operator's rule, more for one with a prefix
    /// operator, and most for a literal or a grouping.
    pub open spec fn strength(self) -> nat {
        match self {
            ExprView::Binary(_, operator, _) => match Level::of_operator(operator.token) {
                Some(level) => level.rank(),
                None => 0,
            },
            ExprView::Unary(_, _) => 4,
            ExprView::Grouping(_) => 5,
            ExprView::Literal(_) => 5,
        }
    }

    /// Whether every operator of the tree is one that the grammar allows
    /// where it stands: a binary operator has a left operand that holds
    /// together at least as tightly as the operator binds and a right
    /// operand that holds together more tightly, and a prefix operator has
    /// an operand that no binary operator heads.
    pub open spec fn is_well_formed(self) -> bool
        decreases self,
    {
        match self {
            ExprView::Binary(left, operator, right) => {
                &&& Level::of_operator(operator.token) matches Some(level)
                &&& left.is_well_formed()
                &&& right.is_well_formed()
                &&& left.strength() >= level.rank()
                &&& right.strength() > level.rank()
            },
            ExprView::Unary(operator, operand) => {
                &&& is_unary_operator(operator.token)
                &&& operand.is_well_formed()
                &&& operand.strength() >= 4
            },
            ExprView::Grouping(inner) => inner.is_well_formed(),
            ExprView::Literal(_) => true,
        }
    }

    /// The tree written out in prefix form: an operator before its operands,
    /// in parentheses; a grouping as `(group ..)`; a literal as its value.
    pub open spec fn text(self) -> Seq<char>
        decreases self,
    {
        match self {
            ExprView::Binary(left, operator, right) => seq!['('] + operator.lexeme + seq![' ']
                + left.text() + seq![' '] + right.text() + seq![')'],
            ExprView::Grouping(inner) => "(group "@ + inner.text() + seq![')'],
            ExprView::Literal(value) => value.text(),
            ExprView::Unary(operator, operand) => seq!['('] + operator.lexeme + seq![' ']
                + operand.text() + seq![')'],
        }
    }
}

impl Expr {
    /// What the tree stands for.
    pub open spec fn tree(&self) -> ExprView
        decreases self,
    {
        match self {
            Expr::Binary(left, operator, right) => ExprView::Binary(
                Box::new(left.tree()),
                operator@,
                Box::new(right.tree()),
            ),
            Expr::Grouping(inner) => ExprView::Grouping(Box::new(inner.tree())),
            Expr::Literal(value) => ExprView::Literal(value@),
            Expr::Unary(operator, operand) => ExprView::Unary(operator@, Box::new(operand.tree())),
        }
    }

    /// The tree written out in prefix form.
    pub fn to_string(&self) -> (text: String)
        ensures
            text@ == self@.text(),
        decreases self,
    {
        match self {
            Expr::Binary(left, operator, right) => {
                let mut text = String::new();
                push_char(&mut text, '(');
                text.append(operator.lexeme.as_str());
                push_char(&mut text, ' ');
                text.append(left.to_string().as_str());
                push_char(&mut text, ' ');
                text.append(right.to_string().as_str());
                push_char(&mut text, ')');
                text
            },
            Expr::Grouping(inner) => {
                let mut text = String::from_str("(group ");
                text.append(inner.to_string().as_str());
                push_char(&mut text, ')');
                text
            },
            Expr::Literal(value) => value.to_string(),
            Expr::Unary(operator, operand) => {
                let mut text = String::new();
                push_char(&mut text, '(');
                text.append(operator.lexeme.as_str());
                push_char(&mut text, ' ');
                text.append(operand.to_string().as_str());
                push_char(&mut text, ')');
                text
            },
        }
    }
}

impl View for Expr {
    type V = ExprView;

    open spec fn view(&self) -> ExprView {
        self.tree()
    }
}

} // verus!
