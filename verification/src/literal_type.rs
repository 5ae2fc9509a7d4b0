//! The values that literals denote.

use crate::decimal::{Decimal, DecimalView};
use vstd::prelude::*;
use vstd::string::StringExecFns;

verus! {

/// The value of a literal.
#[derive(Debug, PartialEq)]
pub enum LiteralType {
    Str(String),
    Number(Decimal),
    Bool(bool),
    Nil,
}

/// What a [`LiteralType`] stands for.
pub enum LiteralView {
    Str(Seq<char>),
    Number(DecimalView),
    Bool(bool),
    Nil,
}

impl LiteralView {
    /// The value written out: a string as its characters, a number in
    /// canonical form, a boolean as `true` or `false`, and nil as `nil`.
    pub open spec fn text(self) -> Seq<char> {
        match self {
            LiteralView::Str(s) => s,
            LiteralView::Number(n) => n.text(),
            LiteralView::Bool(b) => if b {
                "true"@
            } else {
                "false"@
            },
            LiteralView::Nil => "nil"@,
        }
    }
}

impl View for LiteralType {
    type V = LiteralView;

    open spec fn view(&self) -> LiteralView {
        match self {
            LiteralType::Str(s) => LiteralView::Str(s@),
            LiteralType::Number(n) => LiteralView::Number(n@),
            LiteralType::Bool(b) => LiteralView::Bool(*b),
            LiteralType::Nil => LiteralView::Nil,
        }
    }
}

impl LiteralType {
    /// The value written out.
    pub fn to_string(&self) -> (text: String)
        ensures
            text@ == self@.text(),
    {
        match self {
            LiteralType::Str(s) => s.clone(),
            LiteralType::Number(n) => n.to_string(),
            LiteralType::Bool(b) => if *b {
                String::from_str("true")
            } else {
                String::from_str("false")
            },
            LiteralType::Nil => String::from_str("nil"),
        }
    }
}

impl Clone for LiteralType {
    fn clone(&self) -> (r: Self)
        ensures
            r == *self,
    {
        match self {
            LiteralType::Str(s) => LiteralType::Str(s.clone()),
            LiteralType::Number(n) => LiteralType::Number(n.clone()),
            LiteralType::Bool(b) => LiteralType::Bool(*b),
            LiteralType::Nil => LiteralType::Nil,
        }
    }
}

} // verus!
