//! Where a lexeme stands: the lexeme and its line, as a message names them.

use crate::decimal::is_digits;
use crate::decimal_laws::digits_value;
use crate::text::push_char;
use vstd::prelude::*;
use vstd::string::StringExecFns;

verus! {

/// A lexeme and the line on which it stands.
#[derive(Debug)]
pub struct TokenData<'a> {
    pub lexeme: &'a str,
    pub line: i32,
}

/// The character of the digit whose value is `d`, a number below ten.
pub open spec fn digit_char(d: nat) -> char {
    ('0' as int + d) as char
}

/// The natural number `n` written in decimal digits, without leading
/// zeros.
pub open spec fn natural_text(n: nat) -> Seq<char>
    decreases n,
{
    if n < 10 {
        seq![digit_char(n)]
    } else {
        natural_text(n / 10).push(digit_char(n % 10))
    }
}

/// The integer `n` written in decimal digits, with a minus sign before
/// them where it is negative.
pub open spec fn integer_text(n: int) -> Seq<char> {
    if n < 0 {
        seq!['-'] + natural_text((-n) as nat)
    } else {
        natural_text(n as nat)
    }
}

/// A natural number written in digits spells that number, in digits only
/// and, but for zero itself, without a leading zero.
pub proof fn lemma_natural_text_spells(n: nat)
    ensures
        is_digits(natural_text(n)),
        digits_value(natural_text(n)) == n,
        natural_text(n).len() > 0,
        natural_text(n)[0] == '0' <==> n == 0,
    decreases n,
{
    if n >= 10 {
        let rest = natural_text(n / 10);
        lemma_natural_text_spells(n / 10);
        assert(natural_text(n).drop_last() =~= rest);
        assert(natural_text(n)[0] == rest[0]);
    } else {
        assert(natural_text(n).drop_last() =~= Seq::<char>::empty());
        assert(digits_value(Seq::<char>::empty()) == 0);
    }
}

/// The character of the digit whose value is `d`.
fn digit(d: u32) -> (c: char)
    requires
        d < 10,
    ensures
        c == digit_char(d as nat),
{
    match d {
        0 => '0',
        1 => '1',
        2 => '2',
        3 => '3',
        4 => '4',
        5 => '5',
        6 => '6',
        7 => '7',
        8 => '8',
        _ => '9',
    }
}

/// Appends the decimal digits of `n` to `text`.
fn push_natural(text: &mut String, n: u32)
    ensures
        final(text)@ == old(text)@ + natural_text(n as nat),
    decreases n,
{
    if n >= 10 {
        push_natural(text, n / 10);
    }
    push_char(text, digit(n % 10));
}

/// Appends the integer `n`, written in decimal, to `text`.
fn push_integer(text: &mut String, n: i32)
    ensures
        final(text)@ == old(text)@ + integer_text(n as int),
{
    if n < 0 {
        push_char(text, '-');
        // The magnitude of the least integer is one more than the greatest.
        let magnitude: u32 = if n == i32::MIN {
            2147483648
        } else {
            (-n) as u32
        };
        push_natural(text, magnitude);
    } else {
        push_natural(text, n as u32);
    }
}

impl<'a> TokenData<'a> {
    /// What a message says of the lexeme: the lexeme in single quotes and
    /// its line.
    pub open spec fn text(&self) -> Seq<char> {
        seq!['\''] + self.lexeme@ + "' on line "@ + integer_text(self.line as int)
    }

    /// The lexeme and its line, as a message names them.
    pub fn to_string(&self) -> (text: String)
        ensures
            text@ == self.text(),
    {
        let mut text = String::new();
        push_char(&mut text, '\'');
        text.append(self.lexeme);
        text.append("' on line ");
        push_integer(&mut text, self.line);
        text
    }
}

} // verus!
