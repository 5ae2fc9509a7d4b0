//! The program around the scanner: what a run finds, and how it ends.

use crate::scan_rules::scan;
use crate::scanner::{error_views, Scanner, ScannerError};
use crate::token::{token_views, Token};
use vstd::prelude::*;

verus! {

/// A run of the interpreter.
pub struct Program {
    /// Whether an error has been found.
    pub had_error: bool,
}

impl Program {
    /// Scans `source` and returns its tokens and its errors, for the caller
    /// to show. Notes whether there was an error.
    pub fn run(&mut self, source: &str) -> (found: (Vec<Token>, Vec<ScannerError>))
        requires
            source@.len() < usize::MAX,
        ensures
            token_views(found.0@) == scan(source@).tokens,
            error_views(found.1@) == scan(source@).errors,
            final(self).had_error == (old(self).had_error || scan(source@).errors.len() > 0),
    {
        let mut scanner = Scanner::new(source);
        scanner.scan_tokens();
        if scanner.errors.len() > 0 {
            self.had_error = true;
        }
        (scanner.tokens, scanner.errors)
    }

    /// The status with which the program ends: 65 after an error, else 0.
    pub fn exit_code(&self) -> (code: i32)
        ensures
            code == if self.had_error {
                65i32
            } else {
                0i32
            },
    {
        if self.had_error {
            65
        } else {
            0
        }
    }
}

impl Default for Program {
    fn default() -> (program: Self)
        ensures
            !program.had_error,
    {
        Self { had_error: false }
    }
}

} // verus!
