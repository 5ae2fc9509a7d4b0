//! The scanner: from source text to tokens.

use crate::decimal::{is_numeral, numeral_value, Decimal};
use crate::literal_type::{LiteralType, LiteralView};
use crate::scan_laws::{
    lemma_lex_counts_lines, lemma_lex_stays_inside, lemma_number_is_numeral,
    lemma_scan_counts_lines, lemma_scan_is_well_formed,
};
use crate::scan_rules::{lex, number_rest, scan, scan_from, token_at};
use crate::text::{
    chars_of, count_newlines, lemma_count_newlines_bounds, push_char, remaining, run_len,
    string_of, CharClass,
};
use crate::token::{literal_view, token_views, Token, TokenView};
use crate::token_type::TokenType;
use vstd::prelude::*;

verus! {

/// What can go wrong while scanning.
#[derive(Debug, PartialEq, Eq)]
pub enum ScannerError {
    /// A character was asked for where the text had ended.
    UnexpectedEof,
    /// A string literal without its closing quote.
    UnterminatedString { line: usize },
    /// A number literal that denotes no number.
    InvalidNumber { received: String, line: usize },
    /// A character that begins no token.
    UnexpectedToken { lexeme: String, line: usize },
}

/// What a [`ScannerError`] stands for.
pub enum ScannerErrorView {
    UnexpectedEof,
    UnterminatedString { line: nat },
    InvalidNumber { received: Seq<char>, line: nat },
    UnexpectedToken { lexeme: Seq<char>, line: nat },
}

impl View for ScannerError {
    type V = ScannerErrorView;

    open spec fn view(&self) -> ScannerErrorView {
        match self {
            ScannerError::UnexpectedEof => ScannerErrorView::UnexpectedEof,
            ScannerError::UnterminatedString { line } => ScannerErrorView::UnterminatedString {
                line: *line as nat,
            },
            ScannerError::InvalidNumber { received, line } => ScannerErrorView::InvalidNumber {
                received: received@,
                line: *line as nat,
            },
            ScannerError::UnexpectedToken { lexeme, line } => ScannerErrorView::UnexpectedToken {
                lexeme: lexeme@,
                line: *line as nat,
            },
        }
    }
}

/// What a sequence of errors stands for, error by error.
pub open spec fn error_views(errors: Seq<ScannerError>) -> Seq<ScannerErrorView> {
    errors.map_values(|error: ScannerError| error@)
}

/// A scanner: the text, the tokens and errors found so far, and the place
/// that scanning has reached.
pub struct Scanner {
    /// The text, character by character.
    pub source: Vec<char>,
    /// The tokens found so far.
    pub tokens: Vec<Token>,
    /// Where the lexeme that is being scanned begins.
    pub start: usize,
    /// The next character to look at.
    pub current: usize,
    /// The line of the next character, counted from 1.
    pub line: usize,
    /// The errors found so far.
    pub errors: Vec<ScannerError>,
}

impl Scanner {
    /// Whether nothing has been scanned yet.
    pub open spec fn is_fresh(&self) -> bool {
        &&& self.tokens@.len() == 0
        &&& self.errors@.len() == 0
        &&& self.current == 0
        &&& self.line == 1
    }

    /// Whether the line counter can count the line feeds that are still to
    /// come without leaving its type.
    pub open spec fn can_count_lines(&self) -> bool {
        self.line + remaining(self.source.len() as nat, self.current as int) <= usize::MAX
    }

    /// Whether `self` is what becomes of `before` when scanning moves on to
    /// `current` on `line` and adds `token`, if there is one, to the tokens.
    pub open spec fn follows(
        &self,
        before: &Scanner,
        current: int,
        line: nat,
        token: Option<TokenView>,
    ) -> bool {
        &&& self.source == before.source
        &&& self.errors == before.errors
        &&& self.current == current
        &&& self.line == line
        &&& token_views(self.tokens@) == match token {
            Some(token) => token_views(before.tokens@).push(token),
            None => token_views(before.tokens@),
        }
    }

    /// A scanner at the beginning of `source`.
    pub fn new(source: &str) -> (scanner: Self)
        ensures
            scanner.source@ == source@,
            scanner.start == 0,
            scanner.is_fresh(),
    {
        Self {
            source: chars_of(source),
            tokens: Vec::new(),
            start: 0,
            current: 0,
            line: 1,
            errors: Vec::new(),
        }
    }

    /// The characters of the text from `start` up to `end`, as a string.
    pub fn get_source_slice(&self, start: usize, end: usize) -> (slice: String)
        requires
            start <= end <= self.source.len(),
        ensures
            slice@ == self.source@.subrange(start as int, end as int),
    {
        string_of(&self.source, start, end)
    }

    /// Whether scanning has reached the end of the text.
    pub fn is_at_end(&self) -> (r: bool)
        ensures
            r == (self.current >= self.source.len()),
    {
        self.current >= self.source.len()
    }

    /// The next character, if there is one.
    fn peek(&self) -> (r: Option<char>)
        ensures
            r == if self.current < self.source.len() {
                Some(self.source@[self.current as int])
            } else {
                None
            },
    {
        if self.is_at_end() {
            return None;
        }
        Some(self.source[self.current])
    }

    /// The character after the next, if there is one.
    fn peek_next(&self) -> (r: Option<char>)
        ensures
            r == if self.current + 1 < self.source.len() {
                Some(self.source@[self.current + 1])
            } else {
                None
            },
    {
        if self.current < self.source.len() && self.current + 1 < self.source.len() {
            Some(self.source[self.current + 1])
        } else {
            None
        }
    }

    /// Takes the next character, if there is one.
    fn advance(&mut self) -> (r: Option<char>)
        ensures
            final(self).start == old(self).start,
            old(self).current < old(self).source.len() ==> {
                &&& r == Some(old(self).source@[old(self).current as int])
                &&& final(self).follows(
                    old(self),
                    old(self).current + 1,
                    old(self).line as nat,
                    None,
                )
            },
            old(self).current >= old(self).source.len() ==> {
                &&& r is None
                &&& *final(self) == *old(self)
            },
    {
        let c = self.peek()?;
        self.current += 1;
        Some(c)
    }

    /// Takes the next character if it is `test`, and says whether it did.
    fn conditional_advance(&mut self, test: char) -> (r: bool)
        ensures
            r == (old(self).current < old(self).source.len()
                && old(self).source@[old(self).current as int] == test),
            final(self).start == old(self).start,
            final(self).follows(
                old(self),
                if r {
                    old(self).current + 1
                } else {
                    old(self).current as int
                },
                old(self).line as nat,
                None,
            ),
    {
        if self.current_char_test(CharClass::Is(test)) {
            self.current += 1;
            true
        } else {
            false
        }
    }

    /// Whether there is a next character and it is of `class`.
    fn current_char_test(&self, class: CharClass) -> (r: bool)
        ensures
            r == (self.current < self.source.len()
                && class.holds(self.source@[self.current as int])),
    {
        match self.peek() {
            Some(c) => class.test(c),
            None => false,
        }
    }

    /// Whether there is a character after the next and it is of `class`.
    fn next_char_test(&self, class: CharClass) -> (r: bool)
        ensures
            r == (self.current + 1 < self.source.len()
                && class.holds(self.source@[self.current + 1])),
    {
        match self.peek_next() {
            Some(c) => class.test(c),
            None => false,
        }
    }

    /// Takes the characters of `class` that come next.
    fn skip(&mut self, class: CharClass)
        requires
            old(self).current <= old(self).source.len(),
        ensures
            final(self).start == old(self).start,
            final(self).follows(
                old(self),
                old(self).current + run_len(old(self).source@, old(self).current as int, class),
                old(self).line as nat,
                None,
            ),
            final(self).current <= final(self).source.len(),
    {
        while self.current_char_test(class)
            invariant
                self.start == old(self).start,
                self.current <= self.source.len(),
                self.follows(old(self), self.current as int, old(self).line as nat, None),
                self.current + run_len(self.source@, self.current as int, class)
                    == old(self).current + run_len(
                    old(self).source@,
                    old(self).current as int,
                    class,
                ),
            decreases self.source.len() - self.current,
        {
            self.advance();
        }
    }

    /// Adds to the tokens the one that the characters from `start` up to
    /// `current` form, on the line that scanning has reached.
    pub fn add_token(&mut self, token_type: TokenType, literal: Option<LiteralType>)
        requires
            old(self).start <= old(self).current <= old(self).source.len(),
        ensures
            final(self).start == old(self).start,
            final(self).follows(
                old(self),
                old(self).current as int,
                old(self).line as nat,
                Some(
                    token_at(
                        old(self).source@,
                        old(self).start as int,
                        (old(self).current - old(self).start) as nat,
                        old(self).line as nat,
                        token_type,
                        literal_view(literal),
                    ),
                ),
            ),
    {
        let lexeme = self.get_source_slice(self.start, self.current);
        let token = Token { line: self.line, lexeme, token: token_type, literal };
        proof {
            old(self).tokens@.lemma_push_map_commute(|token: Token| token@, token);
        }
        self.tokens.push(token);
    }

    /// Scans the rest of an identifier or a keyword, of which a part has
    /// been taken, and adds its token.
    pub fn add_identifier_token(&mut self) -> (r: Result<(), ScannerError>)
        requires
            old(self).start <= old(self).current <= old(self).source.len(),
        ensures
            r is Ok,
            final(self).start == old(self).start,
            ({
                let src = old(self).source@;
                let start = old(self).start as int;
                let from = old(self).current as int;
                let end = from + run_len(src, from, CharClass::Word);
                let token = token_at(
                    src,
                    start,
                    (end - start) as nat,
                    old(self).line as nat,
                    TokenType::of_word(src.subrange(start, end)),
                    None,
                );
                final(self).follows(old(self), end, old(self).line as nat, Some(token))
            }),
    {
        self.skip(CharClass::Word);
        let token_type = TokenType::word(&self.source, self.start, self.current);
        self.add_token(token_type, None);
        Ok(())
    }

    /// Scans the rest of a string literal, whose opening quote has been
    /// taken, and adds its token, which stands on the line of that quote.
    /// It is an error if the text ends before the closing quote.
    pub fn add_string_token(&mut self) -> (r: Result<(), ScannerError>)
        requires
            old(self).start < old(self).current <= old(self).source.len(),
            old(self).can_count_lines(),
        ensures
            final(self).start == old(self).start,
            ({
                let src = old(self).source@;
                let start = old(self).start as int;
                let from = old(self).current as int;
                let close = from + run_len(src, from, CharClass::Not('"'));
                let last_line = (old(self).line + count_newlines(src, from, close)) as nat;
                if close < src.len() {
                    let token = token_at(
                        src,
                        start,
                        (close + 1 - start) as nat,
                        old(self).line as nat,
                        TokenType::Str,
                        Some(LiteralView::Str(src.subrange(start + 1, close))),
                    );
                    &&& r is Ok
                    &&& final(self).follows(old(self), close + 1, last_line, Some(token))
                } else {
                    &&& r matches Err(error)
                    &&& error@ == ScannerErrorView::UnterminatedString { line: last_line }
                    &&& final(self).follows(old(self), close, last_line, None)
                }
            }),
    {
        let mut line = self.line;
        while !self.current_char_test(CharClass::Is('"')) && !self.is_at_end()
            invariant
                self.start == old(self).start,
                old(self).current <= self.current <= self.source.len(),
                old(self).can_count_lines(),
                self.follows(old(self), self.current as int, old(self).line as nat, None),
                line == old(self).line + count_newlines(
                    self.source@,
                    old(self).current as int,
                    self.current as int,
                ),
                self.current + run_len(self.source@, self.current as int, CharClass::Not('"'))
                    == old(self).current + run_len(
                    old(self).source@,
                    old(self).current as int,
                    CharClass::Not('"'),
                ),
            decreases self.source.len() - self.current,
        {
            proof {
                lemma_count_newlines_bounds(
                    self.source@,
                    old(self).current as int,
                    self.current as int,
                );
            }
            if self.current_char_test(CharClass::Is('\n')) {
                line += 1;
            }
            self.advance();
        }
        if self.is_at_end() {
            self.line = line;
            return Err(ScannerError::UnterminatedString { line });
        }
        self.advance();
        let value = self.get_source_slice(self.start + 1, self.current - 1);
        self.add_token(TokenType::Str, Some(LiteralType::Str(value)));
        self.line = line;
        Ok(())
    }

    /// Scans the rest of a number literal, of which a part has been taken,
    /// and adds its token. It is an error if what was taken before and the
    /// rest do not make a numeral.
    pub fn add_number_token(&mut self) -> (r: Result<(), ScannerError>)
        requires
            old(self).start <= old(self).current <= old(self).source.len(),
        ensures
            final(self).start == old(self).start,
            ({
                let src = old(self).source@;
                let start = old(self).start as int;
                let end = old(self).current + number_rest(src, old(self).current as int);
                let lexeme = src.subrange(start, end);
                if is_numeral(lexeme) {
                    let token = token_at(
                        src,
                        start,
                        (end - start) as nat,
                        old(self).line as nat,
                        TokenType::Number,
                        Some(LiteralView::Number(numeral_value(lexeme))),
                    );
                    &&& r is Ok
                    &&& final(self).follows(old(self), end, old(self).line as nat, Some(token))
                } else {
                    &&& r matches Err(error)
                    &&& error@ == ScannerErrorView::InvalidNumber {
                        received: lexeme,
                        line: old(self).line as nat,
                    }
                    &&& final(self).follows(old(self), end, old(self).line as nat, None)
                }
            }),
    {
        self.skip(CharClass::Digit);
        if self.current_char_test(CharClass::Is('.')) && self.next_char_test(CharClass::Digit) {
            self.advance();
            self.skip(CharClass::Digit);
        }
        match Decimal::from_chars(&self.source, self.start, self.current) {
            Some(value) => {
                self.add_token(TokenType::Number, Some(LiteralType::Number(value)));
                Ok(())
            },
            None => Err(
                ScannerError::InvalidNumber {
                    received: self.get_source_slice(self.start, self.current),
                    line: self.line,
                },
            ),
        }
    }

    /// Scans what begins at the next character: a token, which it adds to
    /// the tokens; an error, which it returns; or something to pass over.
    /// At the end of the text there is nothing to scan, and it returns
    /// `UnexpectedEof`.
    pub fn scan_token(&mut self) -> (r: Result<(), ScannerError>)
        requires
            old(self).can_count_lines(),
        ensures
            final(self).start == old(self).current,
            old(self).current >= old(self).source.len() ==> {
                &&& r matches Err(error)
                &&& error@ == ScannerErrorView::UnexpectedEof
                &&& final(self).follows(
                    old(self),
                    old(self).current as int,
                    old(self).line as nat,
                    None,
                )
            },
            old(self).current < old(self).source.len() ==> {
                let step = lex(
                    old(self).source@,
                    old(self).current as int,
                    old(self).line as nat,
                );
                &&& final(self).follows(
                    old(self),
                    old(self).current + step.width,
                    step.line,
                    step.token,
                )
                &&& match step.error {
                    Some(expected) => r matches Err(error) && error@ == expected,
                    None => r is Ok,
                }
            },
    {
        self.start = self.current;
        let c = match self.advance() {
            Some(c) => c,
            None => {
                return Err(ScannerError::UnexpectedEof);
            },
        };
        if let Some(token_type) = TokenType::punctuation(c) {
            self.add_token(token_type, None);
        } else if let Some((alone, with_equal)) = TokenType::operator(c) {
            if self.conditional_advance('=') {
                self.add_token(with_equal, None);
            } else {
                self.add_token(alone, None);
            }
        } else if c == '/' {
            if self.conditional_advance('/') {
                // A comment runs to the end of the line.
                self.skip(CharClass::Not('\n'));
            } else {
                self.add_token(TokenType::Slash, None);
            }
        } else if c == ' ' || c == '\r' || c == '\t' {
            // White space is passed over.
        } else if c == '\n' {
            self.line += 1;
        } else if c == '"' {
            return self.add_string_token();
        } else if CharClass::Digit.test(c) {
            proof {
                lemma_number_is_numeral(old(self).source@, old(self).current as int);
            }
            return self.add_number_token();
        } else if CharClass::Word.test(c) {
            return self.add_identifier_token();
        } else {
            let mut lexeme = String::new();
            push_char(&mut lexeme, c);
            return Err(ScannerError::UnexpectedToken { lexeme, line: self.line });
        }
        Ok(())
    }

    /// Scans the text from where scanning stands to its end, and returns
    /// all the tokens and all the errors found. An error stops nothing:
    /// what caused it is passed over and scanning goes on. The tokens end
    /// with the end-of-input token, on the line on which the text ends.
    /// The tokens of a fresh scanner are the tokens of the text: all well
    /// formed, and none but the last the end-of-input token.
    pub fn scan_tokens(&mut self) -> (r: (&Vec<Token>, &Vec<ScannerError>))
        requires
            old(self).can_count_lines(),
        ensures
            *r.0 == final(self).tokens,
            *r.1 == final(self).errors,
            final(self).source == old(self).source,
            final(self).current >= final(self).source.len(),
            final(self).current == old(self).current
                || final(self).current == final(self).source.len(),
            ({
                let found = scan_from(
                    old(self).source@,
                    old(self).current as int,
                    old(self).line as nat,
                );
                &&& final(self).line == found.line
                &&& token_views(final(self).tokens@) == token_views(old(self).tokens@)
                    + found.tokens.push(TokenView::eof(found.line))
                &&& error_views(final(self).errors@) == error_views(old(self).errors@)
                    + found.errors
            }),
            old(self).is_fresh() ==> {
                &&& token_views(final(self).tokens@) == scan(final(self).source@).tokens
                &&& error_views(final(self).errors@) == scan(final(self).source@).errors
                &&& forall|i: int|
                    0 <= i < final(self).tokens@.len() ==> {
                        &&& (#[trigger] final(self).tokens@[i])@.is_well_formed()
                        &&& final(self).tokens@[i].token == TokenType::EOF
                            <==> i == final(self).tokens@.len() - 1
                    }
            },
            final(self).tokens@.len() > 0,
            final(self).tokens@.last()@ == TokenView::eof(final(self).line as nat),
            old(self).current <= old(self).source.len() ==> final(self).line == old(self).line
                + count_newlines(
                    old(self).source@,
                    old(self).current as int,
                    old(self).source.len() as int,
                ),
    {
        let ghost found = scan_from(self.source@, self.current as int, self.line as nat);
        while !self.is_at_end()
            invariant
                self.source == old(self).source,
                self.can_count_lines(),
                old(self).current <= self.current,
                self.current <= self.source.len() || self.current == old(self).current,
                found == scan_from(
                    old(self).source@,
                    old(self).current as int,
                    old(self).line as nat,
                ),
                ({
                    let rest = scan_from(self.source@, self.current as int, self.line as nat);
                    &&& rest.line == found.line
                    &&& token_views(self.tokens@) + rest.tokens == token_views(old(self).tokens@)
                        + found.tokens
                    &&& error_views(self.errors@) + rest.errors == error_views(old(self).errors@)
                        + found.errors
                }),
            decreases self.source.len() - self.current,
        {
            let ghost step = lex(self.source@, self.current as int, self.line as nat);
            proof {
                lemma_lex_stays_inside(self.source@, self.current as int, self.line as nat);
                lemma_lex_counts_lines(self.source@, self.current as int, self.line as nat);
                lemma_count_newlines_bounds(
                    self.source@,
                    self.current as int,
                    self.current + step.width,
                );
            }
            if let Err(error) = self.scan_token() {
                proof {
                    self.errors@.lemma_push_map_commute(|error: ScannerError| error@, error);
                }
                self.errors.push(error);
            }
        }
        let mut lexeme = String::new();
        push_char(&mut lexeme, '\0');
        let token = Token { token: TokenType::EOF, line: self.line, lexeme, literal: None };
        proof {
            self.tokens@.lemma_push_map_commute(|token: Token| token@, token);
            if old(self).current <= old(self).source.len() {
                lemma_scan_counts_lines(
                    old(self).source@,
                    old(self).current as int,
                    old(self).line as nat,
                );
            }
            if old(self).is_fresh() {
                lemma_scan_is_well_formed(self.source@);
                let views = token_views(self.tokens@.push(token));
                let tokens = self.tokens@.push(token);
                assert forall|i: int| 0 <= i < tokens.len() implies {
                    &&& (#[trigger] tokens[i])@.is_well_formed()
                    &&& tokens[i].token == TokenType::EOF <==> i == tokens.len() - 1
                } by {
                    assert(views[i] == tokens[i]@);
                }
            }
        }
        self.tokens.push(token);
        (&self.tokens, &self.errors)
    }
}

} // verus!
