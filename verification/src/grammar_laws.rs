//! Laws of the grammar: what holds of every parse.
//!
//! A parse is sound: it takes only tokens that can be part of an
//! expression, its tree is well formed and is what the tokens taken say,
//! and its error says where it stopped. And it is complete: every
//! well-formed expression is parsed from the tokens that it is written
//! with. So the parser is the inverse of writing an expression out in
//! tokens.

use crate::expr::ExprView;
use crate::grammar::{
    is_unary_operator, kind_at, missing_paren_message, parse_binary, parse_chain,
    parse_expression, parse_operand, parse_primary, parse_unary, Level, Parsed,
};
use crate::parser::ParserErrorView;
use crate::scan_laws::lemma_scan_is_well_formed;
use crate::scan_rules::scan;
use crate::text::remaining;
use crate::token::TokenView;
use crate::token_type::TokenType;
use vstd::prelude::*;

verus! {

/// Whether an expression can begin with a token of category `kind`.
pub open spec fn begins_expression(kind: TokenType) -> bool {
    ||| kind == TokenType::False
    ||| kind == TokenType::True
    ||| kind == TokenType::Nil
    ||| kind == TokenType::Number
    ||| kind == TokenType::Str
    ||| kind == TokenType::LeftParen
    ||| is_unary_operator(kind)
}

/// Whether `error` is what a parse that has taken the tokens before `at`
/// can end with: at `at` an expression has to begin and none can, and the
/// error names the line of the token there; or a `)` has to stand at `at`
/// and does not; or the token taken last is a number or a string without a
/// value, and the error names its line.
pub open spec fn is_failure_at(tokens: Seq<TokenView>, at: nat, error: ParserErrorView) -> bool {
    match error {
        ParserErrorView::PrimaryError { line } => {
            &&& !begins_expression(kind_at(tokens, at))
            &&& line == tokens[at as int].line
        },
        ParserErrorView::ParseError { message } => {
            &&& message == missing_paren_message()
            &&& kind_at(tokens, at) != TokenType::RightParen
        },
        ParserErrorView::UndefinedLiteral { line } => {
            &&& at > 0
            &&& {
                let kind = kind_at(tokens, (at - 1) as nat);
                kind == TokenType::Number || kind == TokenType::Str
            }
            &&& tokens[at - 1].literal is None
            &&& line == tokens[at - 1].line
        },
        ParserErrorView::UnexpectedToken { .. } => false,
    }
}

/// Whether `parsed` is a sound outcome of a rule at `pos`: the tokens taken
/// are there and can all be part of an expression; the tree, where there
/// is one, is well formed and holds together at least as tightly as
/// `floor`; and the error, where there is one, is what a parse can end
/// with after the tokens taken.
pub open spec fn is_sound(tokens: Seq<TokenView>, pos: nat, parsed: Parsed, floor: nat) -> bool {
    &&& parsed.consumed > 0 ==> pos + parsed.consumed <= tokens.len()
    &&& forall|i: int|
        pos <= i < pos + parsed.consumed ==> (#[trigger] tokens[i]).token.in_expression()
    &&& parsed.result matches Ok(expr) ==> expr.is_well_formed() && expr.strength() >= floor
    &&& parsed.result matches Err(error) ==> is_failure_at(tokens, pos + parsed.consumed, error)
}

/// What `expression` yields is sound. So a parse takes only tokens that
/// can be part of an expression, never the end-of-input token; every
/// operator of its tree stands where the grammar allows it: operators that
/// bind more tightly are further down, and operators of one rule group
/// from the left; and its error says where the parse stopped.
pub proof fn lemma_expression_is_sound(tokens: Seq<TokenView>, pos: nat)
    ensures
        is_sound(tokens, pos, parse_expression(tokens, pos), 0),
    decreases remaining(tokens.len(), pos as int), 20nat,
{
    lemma_binary_is_sound(tokens, pos, Level::Equality);
}

/// What a rule for binary operators yields is sound, and holds together at
/// least as tightly as the rule binds.
pub proof fn lemma_binary_is_sound(tokens: Seq<TokenView>, pos: nat, level: Level)
    ensures
        is_sound(tokens, pos, parse_binary(tokens, pos, level), level.rank()),
    decreases remaining(tokens.len(), pos as int), 18 - 4 * level.rank(),
{
    let first = parse_operand(tokens, pos, level);
    lemma_operand_is_sound(tokens, pos, level);
    if let Ok(operand) = first.result {
        lemma_chain_is_sound(tokens, pos + first.consumed, level, operand);
    }
}

/// What an operand of a rule for binary operators yields is sound, and
/// holds together more tightly than the rule binds.
pub proof fn lemma_operand_is_sound(tokens: Seq<TokenView>, pos: nat, level: Level)
    ensures
        is_sound(tokens, pos, parse_operand(tokens, pos, level), level.rank() + 1),
    decreases remaining(tokens.len(), pos as int), 17 - 4 * level.rank(),
{
    match level {
        Level::Equality => lemma_binary_is_sound(tokens, pos, Level::Comparison),
        Level::Comparison => lemma_binary_is_sound(tokens, pos, Level::Term),
        Level::Term => lemma_binary_is_sound(tokens, pos, Level::Factor),
        Level::Factor => lemma_unary_is_sound(tokens, pos),
    }
}

/// What the operators of a rule yield after a sound left operand is sound.
pub proof fn lemma_chain_is_sound(tokens: Seq<TokenView>, pos: nat, level: Level, left: ExprView)
    requires
        left.is_well_formed(),
        left.strength() >= level.rank(),
    ensures
        is_sound(tokens, pos, parse_chain(tokens, pos, level, left), level.rank()),
    decreases remaining(tokens.len(), pos as int), 16 - 4 * level.rank(),
{
    if level.has_operator(kind_at(tokens, pos)) {
        let right = parse_operand(tokens, pos + 1, level);
        lemma_operand_is_sound(tokens, pos + 1, level);
        if let Ok(operand) = right.result {
            let joined = ExprView::Binary(Box::new(left), tokens[pos as int], Box::new(operand));
            lemma_chain_is_sound(tokens, pos + 1 + right.consumed, level, joined);
        }
    }
}

/// What `unary` yields is sound, and no binary operator heads it.
pub proof fn lemma_unary_is_sound(tokens: Seq<TokenView>, pos: nat)
    ensures
        is_sound(tokens, pos, parse_unary(tokens, pos), 4),
    decreases remaining(tokens.len(), pos as int), 2nat,
{
    if is_unary_operator(kind_at(tokens, pos)) {
        lemma_unary_is_sound(tokens, pos + 1);
    } else {
        lemma_primary_is_sound(tokens, pos);
    }
}

/// What `primary` yields where no prefix operator stands is sound: a
/// literal or a grouping.
pub proof fn lemma_primary_is_sound(tokens: Seq<TokenView>, pos: nat)
    requires
        !is_unary_operator(kind_at(tokens, pos)),
    ensures
        is_sound(tokens, pos, parse_primary(tokens, pos), 5),
    decreases remaining(tokens.len(), pos as int), 1nat,
{
    if kind_at(tokens, pos) == TokenType::LeftParen {
        lemma_expression_is_sound(tokens, pos + 1);
    }
}

/// Parsing what scanning yields ends, where it ends with an error, with
/// one of two: a token with which no expression begins, or a missing `)`.
/// Every number and every string token of a scan has its value.
pub proof fn lemma_parse_of_scan_fails_plainly(src: Seq<char>, pos: nat)
    ensures
        parse_expression(scan(src).tokens, pos).result matches Err(error) ==> {
            ||| error is PrimaryError
            ||| error is ParseError
        },
{
    let tokens = scan(src).tokens;
    let parsed = parse_expression(tokens, pos);
    lemma_expression_is_sound(tokens, pos);
    lemma_scan_is_well_formed(src);
    if parsed.result matches Err(ParserErrorView::UndefinedLiteral { line }) {
        let last = pos + parsed.consumed - 1;
        assert(tokens[last].is_well_formed());
    }
}

/// Whether the tree of `parsed`, where there is one, is what the tokens
/// from `start` up to where the rule stopped say. The rule began at `pos`.
pub open spec fn reads_back(tokens: Seq<TokenView>, start: nat, pos: nat, parsed: Parsed) -> bool {
    parsed.result matches Ok(expr) ==> {
        &&& start <= pos + parsed.consumed <= tokens.len()
        &&& expr.reads_as(tokens.subrange(start as int, (pos + parsed.consumed) as int))
    }
}

/// The tree that `expression` yields is what the tokens taken say: every
/// token taken is in the tree, in its place, and nothing else is.
pub proof fn lemma_expression_reads_back(tokens: Seq<TokenView>, pos: nat)
    ensures
        reads_back(tokens, pos, pos, parse_expression(tokens, pos)),
    decreases remaining(tokens.len(), pos as int), 20nat,
{
    lemma_binary_reads_back(tokens, pos, Level::Equality);
}

/// The tree that a rule for binary operators yields is what the tokens
/// taken say.
pub proof fn lemma_binary_reads_back(tokens: Seq<TokenView>, pos: nat, level: Level)
    ensures
        reads_back(tokens, pos, pos, parse_binary(tokens, pos, level)),
    decreases remaining(tokens.len(), pos as int), 18 - 4 * level.rank(),
{
    let first = parse_operand(tokens, pos, level);
    lemma_operand_reads_back(tokens, pos, level);
    if let Ok(operand) = first.result {
        lemma_chain_reads_back(tokens, pos, pos + first.consumed, level, operand);
    }
}

/// The tree that an operand of a rule for binary operators yields is what
/// the tokens taken say.
pub proof fn lemma_operand_reads_back(tokens: Seq<TokenView>, pos: nat, level: Level)
    ensures
        reads_back(tokens, pos, pos, parse_operand(tokens, pos, level)),
    decreases remaining(tokens.len(), pos as int), 17 - 4 * level.rank(),
{
    match level {
        Level::Equality => lemma_binary_reads_back(tokens, pos, Level::Comparison),
        Level::Comparison => lemma_binary_reads_back(tokens, pos, Level::Term),
        Level::Term => lemma_binary_reads_back(tokens, pos, Level::Factor),
        Level::Factor => lemma_unary_reads_back(tokens, pos),
    }
}

/// Where the left operand is what the tokens from `start` up to `pos` say,
/// the tree that the operators of a rule yield after it is what the tokens
/// from `start` on say.
pub proof fn lemma_chain_reads_back(
    tokens: Seq<TokenView>,
    start: nat,
    pos: nat,
    level: Level,
    left: ExprView,
)
    requires
        start <= pos <= tokens.len(),
        left.reads_as(tokens.subrange(start as int, pos as int)),
    ensures
        reads_back(tokens, start, pos, parse_chain(tokens, pos, level, left)),
    decreases remaining(tokens.len(), pos as int), 16 - 4 * level.rank(),
{
    if level.has_operator(kind_at(tokens, pos)) {
        let right = parse_operand(tokens, pos + 1, level);
        lemma_operand_reads_back(tokens, pos + 1, level);
        if let Ok(operand) = right.result {
            let end = pos + 1 + right.consumed;
            let operator = tokens[pos as int];
            let joined = ExprView::Binary(Box::new(left), operator, Box::new(operand));
            let all = tokens.subrange(start as int, end as int);
            assert(all.subrange(0, left.width() as int) =~= tokens.subrange(
                start as int,
                pos as int,
            ));
            assert(all.subrange(left.width() as int + 1, all.len() as int) =~= tokens.subrange(
                pos as int + 1,
                end as int,
            ));
            assert(joined.reads_as(all));
            lemma_chain_reads_back(tokens, start, end, level, joined);
        }
    }
}

/// The tree that `unary` yields is what the tokens taken say.
pub proof fn lemma_unary_reads_back(tokens: Seq<TokenView>, pos: nat)
    ensures
        reads_back(tokens, pos, pos, parse_unary(tokens, pos)),
    decreases remaining(tokens.len(), pos as int), 2nat,
{
    if is_unary_operator(kind_at(tokens, pos)) {
        let inner = parse_unary(tokens, pos + 1);
        lemma_unary_reads_back(tokens, pos + 1);
        if let Ok(operand) = inner.result {
            let end = (pos + 1 + inner.consumed) as int;
            let all = tokens.subrange(pos as int, end);
            assert(all.subrange(1, all.len() as int) =~= tokens.subrange(pos as int + 1, end));
        }
    } else {
        lemma_primary_reads_back(tokens, pos);
    }
}

/// The tree that `primary` yields is what the tokens taken say.
pub proof fn lemma_primary_reads_back(tokens: Seq<TokenView>, pos: nat)
    ensures
        reads_back(tokens, pos, pos, parse_primary(tokens, pos)),
    decreases remaining(tokens.len(), pos as int), 1nat,
{
    if kind_at(tokens, pos) == TokenType::LeftParen {
        let inner = parse_expression(tokens, pos + 1);
        lemma_expression_reads_back(tokens, pos + 1);
        if inner.result is Ok && kind_at(tokens, pos + 1 + inner.consumed)
            == TokenType::RightParen {
            let end = (pos + 1 + inner.consumed) as int;
            let all = tokens.subrange(pos as int, end + 1);
            assert(all.subrange(1, all.len() - 1) =~= tokens.subrange(pos as int + 1, end));
        }
    }
}

/// Whether a token of category `kind` is a binary operator that binds at
/// least as tightly as `floor`.
pub open spec fn binds_from(kind: TokenType, floor: nat) -> bool {
    Level::of_operator(kind) matches Some(level) && level.rank() >= floor
}

/// Whether `expr` stands written at `pos`: it is well formed, and it is
/// what the tokens from `pos` on say, as many as it is written with.
pub open spec fn is_written_at(tokens: Seq<TokenView>, pos: nat, expr: ExprView) -> bool {
    &&& expr.is_well_formed()
    &&& pos + expr.width() <= tokens.len()
    &&& expr.reads_as(tokens.subrange(pos as int, (pos + expr.width()) as int))
}

/// Every well-formed expression is parsed from its tokens: where it stands
/// written and no binary operator follows it, `expression` yields exactly
/// that expression and takes exactly its tokens.
pub proof fn lemma_parse_is_complete(tokens: Seq<TokenView>, pos: nat, expr: ExprView)
    requires
        is_written_at(tokens, pos, expr),
        !binds_from(kind_at(tokens, pos + expr.width()), 0),
    ensures
        parse_expression(tokens, pos) == (Parsed { result: Ok(expr), consumed: expr.width() }),
{
    lemma_binary_is_complete(tokens, pos, Level::Equality, expr);
}

/// A rule for binary operators yields an expression that stands written
/// and holds together at least as tightly as the rule binds, where no
/// operator follows that binds at least as tightly as the rule.
pub proof fn lemma_binary_is_complete(
    tokens: Seq<TokenView>,
    pos: nat,
    level: Level,
    expr: ExprView,
)
    requires
        is_written_at(tokens, pos, expr),
        expr.strength() >= level.rank(),
        !binds_from(kind_at(tokens, pos + expr.width()), level.rank()),
    ensures
        parse_binary(tokens, pos, level) == (Parsed {
            result: Ok(expr),
            consumed: expr.width(),
        }),
    decreases expr, 3 * (4 - level.rank()) + 2,
{
    lemma_binary_goes_on(tokens, pos, level, expr);
}

/// A rule for binary operators that meets an expression of its own, which
/// stands written, goes on after it as it does after a left operand.
pub proof fn lemma_binary_goes_on(tokens: Seq<TokenView>, pos: nat, level: Level, expr: ExprView)
    requires
        is_written_at(tokens, pos, expr),
        expr.strength() >= level.rank(),
        !binds_from(kind_at(tokens, pos + expr.width()), level.rank() + 1),
    ensures
        parse_binary(tokens, pos, level) == ({
            let rest = parse_chain(tokens, pos + expr.width(), level, expr);
            Parsed { result: rest.result, consumed: expr.width() + rest.consumed }
        }),
    decreases expr, 3 * (4 - level.rank()) + 1,
{
    if expr.strength() > level.rank() {
        lemma_operand_is_complete(tokens, pos, level, expr);
    } else {
        match expr {
            ExprView::Binary(left, operator, right) => {
                let all = tokens.subrange(pos as int, (pos + expr.width()) as int);
                let middle = pos + left.width();
                assert(all.subrange(0, left.width() as int) =~= tokens.subrange(
                    pos as int,
                    middle as int,
                ));
                assert(all.subrange(left.width() as int + 1, all.len() as int)
                    =~= tokens.subrange(middle as int + 1, (middle + 1 + right.width()) as int));
                assert(tokens[middle as int] == operator);
                lemma_binary_goes_on(tokens, pos, level, *left);
                lemma_operand_is_complete(tokens, middle + 1, level, *right);
            },
            _ => {},
        }
    }
}

/// An operand of a rule for binary operators yields an expression that
/// stands written and holds together more tightly than the rule binds,
/// where no operator follows that binds more tightly than the rule.
pub proof fn lemma_operand_is_complete(
    tokens: Seq<TokenView>,
    pos: nat,
    level: Level,
    expr: ExprView,
)
    requires
        is_written_at(tokens, pos, expr),
        expr.strength() > level.rank(),
        !binds_from(kind_at(tokens, pos + expr.width()), level.rank() + 1),
    ensures
        parse_operand(tokens, pos, level) == (Parsed {
            result: Ok(expr),
            consumed: expr.width(),
        }),
    decreases expr, 3 * (4 - level.rank()),
{
    match level {
        Level::Equality => lemma_binary_is_complete(tokens, pos, Level::Comparison, expr),
        Level::Comparison => lemma_binary_is_complete(tokens, pos, Level::Term, expr),
        Level::Term => lemma_binary_is_complete(tokens, pos, Level::Factor, expr),
        Level::Factor => lemma_unary_is_complete(tokens, pos, expr),
    }
}

/// `unary` yields an expression that stands written and that no binary
/// operator heads, whatever follows it.
pub proof fn lemma_unary_is_complete(tokens: Seq<TokenView>, pos: nat, expr: ExprView)
    requires
        is_written_at(tokens, pos, expr),
        expr.strength() >= 4,
    ensures
        parse_unary(tokens, pos) == (Parsed { result: Ok(expr), consumed: expr.width() }),
    decreases expr, 0nat,
{
    let all = tokens.subrange(pos as int, (pos + expr.width()) as int);
    assert(all[0] == tokens[pos as int]);
    // Where no prefix operator stands, `unary` is `primary`.
    assert(!is_unary_operator(kind_at(tokens, pos)) ==> parse_unary(tokens, pos)
        == parse_primary(tokens, pos));
    match expr {
        ExprView::Unary(operator, operand) => {
            assert(all.subrange(1, all.len() as int) =~= tokens.subrange(
                pos as int + 1,
                (pos + 1 + operand.width()) as int,
            ));
            lemma_unary_is_complete(tokens, pos + 1, *operand);
        },
        ExprView::Grouping(inner) => {
            assert(all.subrange(1, all.len() - 1) =~= tokens.subrange(
                pos as int + 1,
                (pos + 1 + inner.width()) as int,
            ));
            assert(all[all.len() - 1] == tokens[(pos + 1 + inner.width()) as int]);
            lemma_binary_is_complete(tokens, pos + 1, Level::Equality, *inner);
        },
        _ => {},
    }
}

} // verus!
