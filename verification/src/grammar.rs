//! The grammar of expressions: what parsing a sequence of tokens yields.
//!
//! ```text
//! expression -> equality
//! equality   -> comparison ( ( "!=" | "==" ) comparison )*
//! comparison -> term ( ( ">" | ">=" | "<" | "<=" ) term )*
//! term       -> factor ( ( "-" | "+" ) factor )*
//! factor     -> unary ( ( "/" | "*" ) unary )*
//! unary      -> ( "!" | "-" ) unary | primary
//! primary    -> NUMBER | STRING | "true" | "false" | "nil" | "(" expression ")"
//! ```
//!
//! Each rule is a function from the tokens and a position among them to the
//! tree or the error that the rule yields there, and the number of tokens
//! that it takes. The first error ends the parse.

use crate::expr::ExprView;
use crate::literal_type::LiteralView;
use crate::parser::ParserErrorView;
use crate::text::remaining;
use crate::token::TokenView;
use crate::token_type::TokenType;
use vstd::prelude::*;

verus! {

/// The four rules for binary operators, from the one that binds least.
#[derive(Clone, Copy, Debug, PartialEq, Eq, Structural)]
pub enum Level {
    Equality,
    Comparison,
    Term,
    Factor,
}

impl Level {
    /// Whether a token of category `kind` is an operator of this rule.
    pub open spec fn has_operator(self, kind: TokenType) -> bool {
        match self {
            Level::Equality => kind == TokenType::BangEqual || kind == TokenType::EqualEqual,
            Level::Comparison => kind == TokenType::Greater || kind == TokenType::GreaterEqual
                || kind == TokenType::Less || kind == TokenType::LessEqual,
            Level::Term => kind == TokenType::Minus || kind == TokenType::Plus,
            Level::Factor => kind == TokenType::Slash || kind == TokenType::Star,
        }
    }

    /// The rule of which a token of category `kind` is an operator.
    pub open spec fn of_operator(kind: TokenType) -> Option<Level> {
        if Level::Equality.has_operator(kind) {
            Some(Level::Equality)
        } else if Level::Comparison.has_operator(kind) {
            Some(Level::Comparison)
        } else if Level::Term.has_operator(kind) {
            Some(Level::Term)
        } else if Level::Factor.has_operator(kind) {
            Some(Level::Factor)
        } else {
            None
        }
    }

    /// How tightly the operators of this rule bind: more for a rule that
    /// binds more tightly.
    pub open spec fn rank(self) -> nat {
        match self {
            Level::Equality => 0,
            Level::Comparison => 1,
            Level::Term => 2,
            Level::Factor => 3,
        }
    }
}

/// Whether a token of category `kind` is a prefix operator.
pub open spec fn is_unary_operator(kind: TokenType) -> bool {
    kind == TokenType::Bang || kind == TokenType::Minus
}

/// The category of the token at `pos`. Past the last token the input has
/// ended.
pub open spec fn kind_at(tokens: Seq<TokenView>, pos: nat) -> TokenType {
    if pos < tokens.len() {
        tokens[pos as int].token
    } else {
        TokenType::EOF
    }
}

/// What a rule yields at a position.
pub struct Parsed {
    /// The tree, or the first error.
    pub result: Result<ExprView, ParserErrorView>,
    /// The number of tokens taken, up to the error where there is one.
    pub consumed: nat,
}

/// The message of the error for a `(` whose `)` is missing.
pub open spec fn missing_paren_message() -> Seq<char> {
    "Expected ')' after expression"@
}

/// `expression -> equality`
pub open spec fn parse_expression(tokens: Seq<TokenView>, pos: nat) -> Parsed
    decreases remaining(tokens.len(), pos as int), 20nat,
{
    parse_binary(tokens, pos, Level::Equality)
}

/// A rule for binary operators: an operand, then operators of the rule,
/// each with another operand.
pub open spec fn parse_binary(tokens: Seq<TokenView>, pos: nat, level: Level) -> Parsed
    decreases remaining(tokens.len(), pos as int), 18 - 4 * level.rank(),
{
    let first = parse_operand(tokens, pos, level);
    match first.result {
        Ok(left) => {
            let rest = parse_chain(tokens, pos + first.consumed, level, left);
            Parsed { result: rest.result, consumed: first.consumed + rest.consumed }
        },
        Err(_) => first,
    }
}

/// An operand of a rule for binary operators: what the next rule yields.
pub open spec fn parse_operand(tokens: Seq<TokenView>, pos: nat, level: Level) -> Parsed
    decreases remaining(tokens.len(), pos as int), 17 - 4 * level.rank(),
{
    match level {
        Level::Equality => parse_binary(tokens, pos, Level::Comparison),
        Level::Comparison => parse_binary(tokens, pos, Level::Term),
        Level::Term => parse_binary(tokens, pos, Level::Factor),
        Level::Factor => parse_unary(tokens, pos),
    }
}

/// The operators of a rule that follow the operand `left`, each with its
/// right operand. Every operator makes what stands before it its left
/// operand, so the operators of one rule group from the left.
pub open spec fn parse_chain(
    tokens: Seq<TokenView>,
    pos: nat,
    level: Level,
    left: ExprView,
) -> Parsed
    decreases remaining(tokens.len(), pos as int), 16 - 4 * level.rank(),
{
    if level.has_operator(kind_at(tokens, pos)) {
        let right = parse_operand(tokens, pos + 1, level);
        match right.result {
            Ok(operand) => {
                let operator = tokens[pos as int];
                let joined = ExprView::Binary(Box::new(left), operator, Box::new(operand));
                let rest = parse_chain(tokens, pos + 1 + right.consumed, level, joined);
                Parsed { result: rest.result, consumed: 1 + right.consumed + rest.consumed }
            },
            Err(error) => Parsed { result: Err(error), consumed: 1 + right.consumed },
        }
    } else {
        Parsed { result: Ok(left), consumed: 0 }
    }
}

/// `unary -> ( "!" | "-" ) unary | primary`
pub open spec fn parse_unary(tokens: Seq<TokenView>, pos: nat) -> Parsed
    decreases remaining(tokens.len(), pos as int), 2nat,
{
    if is_unary_operator(kind_at(tokens, pos)) {
        let inner = parse_unary(tokens, pos + 1);
        Parsed {
            result: match inner.result {
                Ok(operand) => Ok(ExprView::Unary(tokens[pos as int], Box::new(operand))),
                Err(error) => Err(error),
            },
            consumed: 1 + inner.consumed,
        }
    } else {
        parse_primary(tokens, pos)
    }
}

/// `primary -> NUMBER | STRING | "true" | "false" | "nil" | "(" expression ")"`
///
/// A number or a string token without a value is an error, and so are an
/// expression in parentheses that no `)` follows and a token with which no
/// expression begins.
pub open spec fn parse_primary(tokens: Seq<TokenView>, pos: nat) -> Parsed
    decreases remaining(tokens.len(), pos as int), 1nat,
{
    let kind = kind_at(tokens, pos);
    if kind == TokenType::False {
        Parsed { result: Ok(ExprView::Literal(LiteralView::Bool(false))), consumed: 1 }
    } else if kind == TokenType::True {
        Parsed { result: Ok(ExprView::Literal(LiteralView::Bool(true))), consumed: 1 }
    } else if kind == TokenType::Nil {
        Parsed { result: Ok(ExprView::Literal(LiteralView::Nil)), consumed: 1 }
    } else if kind == TokenType::Number || kind == TokenType::Str {
        Parsed {
            result: match tokens[pos as int].literal {
                Some(value) => Ok(ExprView::Literal(value)),
                None => Err(ParserErrorView::UndefinedLiteral { line: tokens[pos as int].line }),
            },
            consumed: 1,
        }
    } else if kind == TokenType::LeftParen {
        let inner = parse_expression(tokens, pos + 1);
        match inner.result {
            Ok(expr) => if kind_at(tokens, pos + 1 + inner.consumed) == TokenType::RightParen {
                Parsed {
                    result: Ok(ExprView::Grouping(Box::new(expr))),
                    consumed: inner.consumed + 2,
                }
            } else {
                Parsed {
                    result: Err(ParserErrorView::ParseError { message: missing_paren_message() }),
                    consumed: 1 + inner.consumed,
                }
            },
            Err(error) => Parsed { result: Err(error), consumed: 1 + inner.consumed },
        }
    } else {
        Parsed {
            result: Err(ParserErrorView::PrimaryError { line: tokens[pos as int].line }),
            consumed: 0,
        }
    }
}

/// Whether, at `pos` or after it, there is a token that no rule takes. The
/// end-of-input token is one. A parse never goes past such a token.
pub open spec fn stops_ahead(tokens: Seq<TokenView>, pos: int) -> bool {
    exists|i: int| pos <= i < tokens.len() && !(#[trigger] tokens[i]).token.in_expression()
}

/// Whether the end-of-input token stands at `pos` or after it.
pub open spec fn ends_ahead(tokens: Seq<TokenView>, pos: int) -> bool {
    exists|i: int| pos <= i < tokens.len() && (#[trigger] tokens[i]).token == TokenType::EOF
}

/// Whether a statement may begin at `pos`: the input ends there, the token
/// before is a `;`, or the token there begins a statement.
pub open spec fn is_boundary(tokens: Seq<TokenView>, pos: nat) -> bool {
    ||| kind_at(tokens, pos) == TokenType::EOF
    ||| (pos > 0 && kind_at(tokens, (pos - 1) as nat) == TokenType::Semicolon)
    ||| kind_at(tokens, pos).starts_statement()
}

/// The first position at `pos` or after it at which a statement may begin.
pub open spec fn next_boundary(tokens: Seq<TokenView>, pos: nat) -> nat
    decreases remaining(tokens.len(), pos as int),
{
    if is_boundary(tokens, pos) {
        pos
    } else {
        next_boundary(tokens, pos + 1)
    }
}

/// Where parsing takes up again after an error at `pos`: at the first
/// position after `pos` at which a statement may begin; at `pos` itself
/// where the input ends there.
pub open spec fn resume_point(tokens: Seq<TokenView>, pos: nat) -> nat {
    if kind_at(tokens, pos) == TokenType::EOF {
        pos
    } else {
        next_boundary(tokens, pos + 1)
    }
}

} // verus!
