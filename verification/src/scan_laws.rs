//! Laws of the lexical rules: what holds of every scan.
//!
//! Scanning always goes forward and ends; its tokens are well formed, stand
//! in the text in their order and end with the one end-of-input token, on
//! the line that the line feeds of the text lead to; and its errors are
//! those that a text can cause.

use crate::decimal::{is_numeral, lemma_numeral_value_is_canonical};
use crate::grammar::stops_ahead;
use crate::scan_rules::{followed_by, lex, lex_word, number_rest, scan, scan_from};
use crate::scanner::ScannerErrorView;
use crate::text::{
    count_newlines, is_alphabetic, is_digit, lemma_count_newlines_bounds,
    lemma_count_newlines_split, lemma_run_in_slice, lemma_run_is_maximal, remaining, run_len,
    CharClass,
};
use crate::token::TokenView;
use crate::token_type::TokenType;
use vstd::prelude::*;

verus! {

/// A number literal is a numeral: the characters that [`lex_number`] takes
/// denote a number.
pub proof fn lemma_number_is_numeral(src: Seq<char>, pos: int)
    requires
        0 <= pos < src.len(),
        is_digit(src[pos]),
    ensures
        pos + 1 + number_rest(src, pos + 1) <= src.len(),
        is_numeral(src.subrange(pos, pos + 1 + number_rest(src, pos + 1))),
{
    let digits = run_len(src, pos + 1, CharClass::Digit);
    let point = pos + 1 + digits;
    let end = pos + 1 + number_rest(src, pos + 1);
    lemma_run_is_maximal(src, pos + 1, CharClass::Digit);
    if point + 1 < src.len() && src[point] == '.' && is_digit(src[point + 1]) {
        lemma_run_is_maximal(src, point + 1, CharClass::Digit);
    }
    lemma_run_in_slice(src, pos, end, 0, CharClass::Digit);
    if end > point {
        lemma_run_in_slice(src, pos, end, point + 1 - pos, CharClass::Digit);
    }
}

/// What begins inside the text takes at least one character and ends
/// inside the text.
pub proof fn lemma_lex_stays_inside(src: Seq<char>, pos: int, line: nat)
    requires
        0 <= pos < src.len(),
    ensures
        1 <= lex(src, pos, line).width,
        pos + lex(src, pos, line).width <= src.len(),
{
    let c = src[pos];
    if c == '/' && followed_by(src, pos, '/') {
        lemma_run_is_maximal(src, pos + 2, CharClass::Not('\n'));
    } else if c == '"' {
        lemma_run_is_maximal(src, pos + 1, CharClass::Not('"'));
    } else if is_digit(c) {
        lemma_number_is_numeral(src, pos);
    } else if is_alphabetic(c) || c == '_' {
        lemma_run_is_maximal(src, pos + 1, CharClass::Word);
    }
}

/// The line counter follows the text: what begins at a position moves the
/// counter on by the number of line feeds among the characters it takes.
pub proof fn lemma_lex_counts_lines(src: Seq<char>, pos: int, line: nat)
    requires
        0 <= pos < src.len(),
    ensures
        lex(src, pos, line).line == line + count_newlines(
            src,
            pos,
            pos + lex(src, pos, line).width,
        ),
{
    let c = src[pos];
    let end = pos + lex(src, pos, line).width;
    lemma_lex_stays_inside(src, pos, line);
    if c == '"' {
        // The quotes are no line feeds; those between them are counted.
        let close = pos + 1 + run_len(src, pos + 1, CharClass::Not('"'));
        lemma_run_is_maximal(src, pos + 1, CharClass::Not('"'));
        lemma_count_newlines_split(src, pos, pos + 1, end);
        lemma_count_newlines_bounds(src, pos, pos + 1);
        if close < src.len() {
            lemma_count_newlines_split(src, pos + 1, close, end);
            lemma_count_newlines_bounds(src, close, end);
        }
    } else if c == '\n' {
        assert(count_newlines(src, pos, pos) == 0);
    } else {
        // Nothing else holds a line feed.
        if c == '/' && followed_by(src, pos, '/') {
            lemma_run_is_maximal(src, pos + 2, CharClass::Not('\n'));
        } else if is_digit(c) {
            let point = pos + 1 + run_len(src, pos + 1, CharClass::Digit);
            lemma_run_is_maximal(src, pos + 1, CharClass::Digit);
            if point + 1 < src.len() {
                lemma_run_is_maximal(src, point + 1, CharClass::Digit);
            }
        } else if is_alphabetic(c) || c == '_' {
            lemma_run_is_maximal(src, pos + 1, CharClass::Word);
        }
        assert forall|i: int| pos <= i < end implies #[trigger] src[i] != '\n' by {}
        lemma_count_newlines_bounds(src, pos, end);
    }
}

/// Scanning ends on the line that the line feeds of the text lead to.
pub proof fn lemma_scan_counts_lines(src: Seq<char>, pos: int, line: nat)
    requires
        0 <= pos <= src.len(),
    ensures
        scan_from(src, pos, line).line == line + count_newlines(src, pos, src.len() as int),
    decreases src.len() - pos,
{
    if pos < src.len() {
        let first = lex(src, pos, line);
        lemma_lex_stays_inside(src, pos, line);
        lemma_lex_counts_lines(src, pos, line);
        lemma_scan_counts_lines(src, pos + first.width, first.line);
        lemma_count_newlines_split(src, pos, pos + first.width, src.len() as int);
    }
}

/// Whatever the text, its tokens end with the end-of-input token, and that
/// token stands on the line whose number is one more than the number of
/// line feeds in the text.
pub proof fn lemma_scan_ends_with_eof(src: Seq<char>)
    ensures
        scan(src).tokens.len() > 0,
        scan(src).tokens.last() == TokenView::eof(count_newlines(src, 0, src.len() as int) + 1),
{
    lemma_scan_counts_lines(src, 0, 1);
}

/// An identifier or a keyword is the longest word that begins where it
/// begins: every character of it is a word character, and the character
/// after it, if there is one, is not.
pub proof fn lemma_word_is_longest(src: Seq<char>, pos: int, line: nat)
    requires
        0 <= pos < src.len(),
        is_alphabetic(src[pos]) || src[pos] == '_',
    ensures
        lex(src, pos, line) == lex_word(src, pos, line),
        forall|i: int|
            pos <= i < pos + lex(src, pos, line).width ==> CharClass::Word.holds(
                #[trigger] src[i],
            ),
        pos + lex(src, pos, line).width < src.len() ==> !CharClass::Word.holds(
            src[pos + lex(src, pos, line).width],
        ),
{
    lemma_run_is_maximal(src, pos + 1, CharClass::Word);
}

/// Whether an error is one that the text can cause: a string without its
/// closing quote, or a character that begins no token.
pub open spec fn is_lexical(error: ScannerErrorView) -> bool {
    error is UnterminatedString || error is UnexpectedToken
}

/// What begins at a position is a token, an error or neither, never both.
/// The token is well formed, is not the end-of-input token and stands on
/// the line of the position; the error is one that the text can cause.
pub proof fn lemma_lex_is_well_formed(src: Seq<char>, pos: int, line: nat)
    requires
        0 <= pos < src.len(),
    ensures
        lex(src, pos, line).token is None || lex(src, pos, line).error is None,
        lex(src, pos, line).token matches Some(token) ==> {
            &&& token.is_well_formed()
            &&& token.token != TokenType::EOF
            &&& token.line == line
            &&& token.lexeme == src.subrange(pos, pos + lex(src, pos, line).width)
        },
        lex(src, pos, line).error matches Some(error) ==> is_lexical(error),
{
    let c = src[pos];
    lemma_lex_stays_inside(src, pos, line);
    if is_digit(c) {
        lemma_number_is_numeral(src, pos);
        lemma_numeral_value_is_canonical(
            src.subrange(pos, pos + 1 + number_rest(src, pos + 1)),
        );
    }
}

/// Whether the tokens `tokens` are what a scan can yield before the
/// end-of-input token, and `errors` what it can yield as errors.
pub open spec fn is_scanned(tokens: Seq<TokenView>, errors: Seq<ScannerErrorView>) -> bool {
    &&& forall|i: int|
        0 <= i < tokens.len() ==> {
            &&& (#[trigger] tokens[i]).is_well_formed()
            &&& tokens[i].token != TokenType::EOF
        }
    &&& forall|i: int| 0 <= i < errors.len() ==> is_lexical(#[trigger] errors[i])
}

/// Every token that scanning a stretch of text yields is well formed and
/// none is the end-of-input token; every error is one that the text can
/// cause.
pub proof fn lemma_scan_from_is_well_formed(src: Seq<char>, pos: int, line: nat)
    ensures
        is_scanned(scan_from(src, pos, line).tokens, scan_from(src, pos, line).errors),
    decreases remaining(src.len(), pos),
{
    if 0 <= pos < src.len() {
        let first = lex(src, pos, line);
        lemma_lex_is_well_formed(src, pos, line);
        lemma_scan_from_is_well_formed(src, pos + first.width, first.line);
    }
}

/// Whatever the text, scanning it yields well-formed tokens, of which the
/// last, and only the last, is the end-of-input token, and errors of two
/// kinds only: a string without its closing quote, and a character that
/// begins no token. A number literal always denotes a number, and the end
/// of the text is never met unexpectedly.
pub proof fn lemma_scan_is_well_formed(src: Seq<char>)
    ensures
        forall|i: int|
            0 <= i < scan(src).tokens.len() ==> (#[trigger] scan(src).tokens[i]).is_well_formed(),
        forall|i: int|
            0 <= i < scan(src).tokens.len() ==> {
                (#[trigger] scan(src).tokens[i]).token == TokenType::EOF
                    <==> i == scan(src).tokens.len() - 1
            },
        forall|i: int|
            0 <= i < scan(src).errors.len() ==> is_lexical(#[trigger] scan(src).errors[i]),
{
    lemma_scan_from_is_well_formed(src, 0, 1);
}

/// Whether `token` stands at `pos` in the text: its lexeme is the text
/// there, and its line is the line of `pos`, one more than the number of
/// line feeds before it.
pub open spec fn stands_at(src: Seq<char>, pos: int, token: TokenView) -> bool {
    &&& 0 <= pos
    &&& pos + token.lexeme.len() <= src.len()
    &&& src.subrange(pos, pos + token.lexeme.len()) == token.lexeme
    &&& token.line == 1 + count_newlines(src, 0, pos)
}

/// Whether `tokens` stand in the text one after another, the first of them
/// at `from` or after it.
pub open spec fn stand_in_order(src: Seq<char>, from: int, tokens: Seq<TokenView>) -> bool
    decreases tokens.len(),
{
    tokens.len() > 0 ==> exists|pos: int|
        {
            &&& from <= pos
            &&& #[trigger] stands_at(src, pos, tokens[0])
            &&& stand_in_order(src, pos + tokens[0].lexeme.len(), tokens.drop_first())
        }
}

/// Tokens that stand in order after a place stand in order after every
/// place before it.
pub proof fn lemma_stand_in_order_from_before(
    src: Seq<char>,
    before: int,
    from: int,
    tokens: Seq<TokenView>,
)
    requires
        before <= from,
        stand_in_order(src, from, tokens),
    ensures
        stand_in_order(src, before, tokens),
{
    if tokens.len() > 0 {
        let pos = choose|pos: int|
            {
                &&& from <= pos
                &&& #[trigger] stands_at(src, pos, tokens[0])
                &&& stand_in_order(src, pos + tokens[0].lexeme.len(), tokens.drop_first())
            };
        assert(stands_at(src, pos, tokens[0]));
    }
}

/// The tokens that scanning a stretch of text yields stand in that stretch
/// in their order: the lexeme of each is the very text of the place where
/// it begins, its line is the line of that place, and the next token
/// begins after it.
pub proof fn lemma_scan_from_places_tokens(src: Seq<char>, pos: int)
    requires
        0 <= pos <= src.len(),
    ensures
        stand_in_order(src, pos, scan_from(src, pos, 1 + count_newlines(src, 0, pos)).tokens),
    decreases src.len() - pos,
{
    let line = 1 + count_newlines(src, 0, pos);
    if pos < src.len() {
        let first = lex(src, pos, line);
        let next = pos + first.width;
        lemma_lex_stays_inside(src, pos, line);
        lemma_lex_counts_lines(src, pos, line);
        lemma_lex_is_well_formed(src, pos, line);
        lemma_count_newlines_split(src, 0, pos, next);
        lemma_scan_from_places_tokens(src, next);
        assert(first.line == 1 + count_newlines(src, 0, next));
        let rest = scan_from(src, next, first.line);
        let all = scan_from(src, pos, line);
        match first.token {
            Some(token) => {
                assert(all.tokens.drop_first() =~= rest.tokens);
                assert(stands_at(src, pos, all.tokens[0]));
            },
            None => {
                lemma_stand_in_order_from_before(src, pos, next, rest.tokens);
            },
        }
    }
}

/// Whatever the text, its tokens before the end-of-input token stand in
/// the text in their order: the lexeme of each is the very text of the
/// place where it begins, its line is the line of that place, and the next
/// token begins after it.
pub proof fn lemma_scan_places_tokens(src: Seq<char>)
    ensures
        stand_in_order(src, 0, scan(src).tokens.drop_last()),
{
    assert(count_newlines(src, 0, 0) == 0);
    lemma_scan_from_places_tokens(src, 0);
    assert(scan(src).tokens.drop_last() =~= scan_from(src, 0, 1).tokens);
}

/// The tokens of a scan can be parsed: they end with a token at which a
/// parse stops.
pub proof fn lemma_scan_can_be_parsed(src: Seq<char>)
    ensures
        stops_ahead(scan(src).tokens, 0),
{
    let tokens = scan(src).tokens;
    assert(!tokens[tokens.len() - 1].token.in_expression());
}

} // verus!
