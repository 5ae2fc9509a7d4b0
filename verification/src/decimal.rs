//! Exact decimal numbers: the value of a number literal.
//!
//! A numeral is a run of digits, optionally followed by a point and another
//! run of digits. Its value is kept exactly, as the digits before and after
//! the point, in canonical form: no leading zero before the point but for a
//! lone `0`, and no trailing zero after it. Two numerals denote the same
//! number exactly when their values are equal.

use crate::text::{
    chars_of, lemma_run_in_slice, lemma_run_is_maximal, lemma_run_is_unique, push_char, run_end,
    run_len, string_of, CharClass,
};
use vstd::prelude::*;
use vstd::string::StringExecFns;

verus! {

/// A non-negative decimal number.
#[derive(Debug, PartialEq, Eq)]
pub struct Decimal {
    whole: String,
    fraction: String,
}

/// What a [`Decimal`] stands for: the digits before and after the point.
pub struct DecimalView {
    pub whole: Seq<char>,
    pub fraction: Seq<char>,
}

/// `digits` without its leading zeros; a last digit is always kept.
pub open spec fn trim_leading_zeros(digits: Seq<char>) -> Seq<char>
    decreases digits.len(),
{
    if digits.len() > 1 && digits[0] == '0' {
        trim_leading_zeros(digits.drop_first())
    } else {
        digits
    }
}

/// `digits` without its trailing zeros.
pub open spec fn trim_trailing_zeros(digits: Seq<char>) -> Seq<char>
    decreases digits.len(),
{
    if digits.len() > 0 && digits.last() == '0' {
        trim_trailing_zeros(digits.drop_last())
    } else {
        digits
    }
}

/// Whether every character of `text` is a digit.
pub open spec fn is_digits(text: Seq<char>) -> bool {
    forall|i: int| 0 <= i < text.len() ==> CharClass::Digit.holds(#[trigger] text[i])
}

/// Whether `text` is a numeral: one or more digits, then either nothing or
/// a point and one or more digits.
pub open spec fn is_numeral(text: Seq<char>) -> bool {
    let whole = run_len(text, 0, CharClass::Digit) as int;
    &&& whole > 0
    &&& whole < text.len() ==> {
        &&& text[whole] == '.'
        &&& run_len(text, whole + 1, CharClass::Digit) > 0
        &&& whole + 1 + run_len(text, whole + 1, CharClass::Digit) == text.len()
    }
}

/// The number that the numeral `text` denotes.
pub open spec fn numeral_value(text: Seq<char>) -> DecimalView {
    let whole = run_len(text, 0, CharClass::Digit) as int;
    DecimalView {
        whole: trim_leading_zeros(text.subrange(0, whole)),
        fraction: if whole < text.len() {
            trim_trailing_zeros(text.subrange(whole + 1, text.len() as int))
        } else {
            Seq::empty()
        },
    }
}

impl DecimalView {
    /// Whether the digits are in canonical form.
    pub open spec fn is_canonical(self) -> bool {
        &&& self.whole.len() > 0
        &&& is_digits(self.whole)
        &&& self.whole.len() > 1 ==> self.whole[0] != '0'
        &&& is_digits(self.fraction)
        &&& self.fraction.len() > 0 ==> self.fraction.last() != '0'
    }

    /// The number written out: the digits before the point and, where there
    /// are digits after it, the point and those digits.
    pub open spec fn text(self) -> Seq<char> {
        if self.fraction.len() > 0 {
            self.whole.push('.') + self.fraction
        } else {
            self.whole
        }
    }
}

impl View for Decimal {
    type V = DecimalView;

    closed spec fn view(&self) -> DecimalView {
        DecimalView { whole: self.whole@, fraction: self.fraction@ }
    }
}

proof fn lemma_trimmed_leading(digits: Seq<char>)
    requires
        digits.len() > 0,
        is_digits(digits),
    ensures
        trim_leading_zeros(digits).len() > 0,
        is_digits(trim_leading_zeros(digits)),
        trim_leading_zeros(digits).len() > 1 ==> trim_leading_zeros(digits)[0] != '0',
    decreases digits.len(),
{
    if digits.len() > 1 && digits[0] == '0' {
        lemma_trimmed_leading(digits.drop_first());
    }
}

proof fn lemma_trimmed_trailing(digits: Seq<char>)
    requires
        is_digits(digits),
    ensures
        is_digits(trim_trailing_zeros(digits)),
        trim_trailing_zeros(digits).len() > 0 ==> trim_trailing_zeros(digits).last() != '0',
    decreases digits.len(),
{
    if digits.len() > 0 && digits.last() == '0' {
        lemma_trimmed_trailing(digits.drop_last());
    }
}

/// The value of a numeral is in canonical form.
pub proof fn lemma_numeral_value_is_canonical(text: Seq<char>)
    requires
        is_numeral(text),
    ensures
        numeral_value(text).is_canonical(),
{
    let whole = run_len(text, 0, CharClass::Digit) as int;
    lemma_run_is_maximal(text, 0, CharClass::Digit);
    lemma_trimmed_leading(text.subrange(0, whole));
    if whole < text.len() {
        lemma_run_is_maximal(text, whole + 1, CharClass::Digit);
        lemma_trimmed_trailing(text.subrange(whole + 1, text.len() as int));
    }
}

/// A number in canonical form, written out, is a numeral, and the numeral
/// denotes that number: writing and reading lose nothing.
pub proof fn lemma_text_denotes_number(number: DecimalView)
    requires
        number.is_canonical(),
    ensures
        is_numeral(number.text()),
        numeral_value(number.text()) == number,
{
    let text = number.text();
    let whole = number.whole.len() as int;
    // The digits before the point are the first run of digits of the text,
    lemma_run_is_unique(text, 0, number.whole.len(), CharClass::Digit);
    assert(text.subrange(0, whole) =~= number.whole);
    // and those after it are the run that follows the point.
    if number.fraction.len() > 0 {
        lemma_run_is_unique(text, whole + 1, number.fraction.len(), CharClass::Digit);
        assert(text.subrange(whole + 1, text.len() as int) =~= number.fraction);
    }
    assert(numeral_value(text).whole == number.whole);
    assert(numeral_value(text).fraction =~= number.fraction);
}

impl Decimal {
    /// Every number is held in canonical form.
    #[verifier::type_invariant]
    spec fn is_canonical(self) -> bool {
        self@.is_canonical()
    }

    /// Reads a numeral. Returns `None` where `text` is not one.
    pub fn parse(text: &str) -> (r: Option<Decimal>)
        ensures
            r is Some <==> is_numeral(text@),
            r matches Some(d) ==> d@.is_canonical() && d@ == numeral_value(text@),
    {
        let chars = chars_of(text);
        assert(chars@.subrange(0, chars.len() as int) =~= text@);
        Decimal::from_chars(&chars, 0, chars.len())
    }

    /// Reads the numeral that the characters of `chars` from `start` up to
    /// `end` spell. Returns `None` where they spell none.
    pub fn from_chars(chars: &Vec<char>, start: usize, end: usize) -> (r: Option<Decimal>)
        requires
            start <= end <= chars.len(),
        ensures
            r is Some <==> is_numeral(chars@.subrange(start as int, end as int)),
            r matches Some(d) ==> d@.is_canonical() && d@ == numeral_value(
                chars@.subrange(start as int, end as int),
            ),
    {
        let ghost text = chars@.subrange(start as int, end as int);
        let point = Decimal::digits_end(chars, start, end);
        proof {
            lemma_run_in_slice(chars@, start as int, end as int, 0, CharClass::Digit);
        }
        if point == start {
            return None;
        }
        let mut last = end;
        if point < end {
            if chars[point] != '.' {
                return None;
            }
            let stop = Decimal::digits_end(chars, point + 1, end);
            proof {
                lemma_run_in_slice(
                    chars@,
                    start as int,
                    end as int,
                    point + 1 - start,
                    CharClass::Digit,
                );
            }
            if stop == point + 1 || stop != end {
                return None;
            }
            while last > point + 1 && chars[last - 1] == '0'
                invariant
                    point + 1 <= last <= end <= chars.len(),
                    trim_trailing_zeros(chars@.subrange(point + 1, end as int))
                        == trim_trailing_zeros(chars@.subrange(point + 1, last as int)),
                decreases last,
            {
                assert(chars@.subrange(point + 1, last as int).drop_last()
                    =~= chars@.subrange(point + 1, last - 1));
                last -= 1;
            }
            assert(text.subrange(point + 1 - start, text.len() as int)
                =~= chars@.subrange(point + 1, end as int));
        }
        let mut first = start;
        while first + 1 < point && chars[first] == '0'
            invariant
                start <= first < point <= chars.len(),
                trim_leading_zeros(chars@.subrange(start as int, point as int))
                    == trim_leading_zeros(chars@.subrange(first as int, point as int)),
            decreases point - first,
        {
            assert(chars@.subrange(first as int, point as int).drop_first()
                =~= chars@.subrange(first + 1, point as int));
            first += 1;
        }
        assert(text.subrange(0, point - start) =~= chars@.subrange(start as int, point as int));
        let whole = string_of(chars, first, point);
        let fraction = if point < end {
            string_of(chars, point + 1, last)
        } else {
            String::new()
        };
        proof {
            lemma_numeral_value_is_canonical(text);
        }
        Some(Decimal { whole, fraction })
    }

    /// The end of the run of digits that starts at `from`, within the
    /// characters before `end`.
    fn digits_end(chars: &Vec<char>, from: usize, end: usize) -> (stop: usize)
        requires
            from <= end <= chars.len(),
        ensures
            from <= stop <= end,
            stop - from == vstd::math::min(
                run_len(chars@, from as int, CharClass::Digit) as int,
                end - from,
            ),
    {
        let stop = run_end(chars, from, CharClass::Digit);
        if stop < end {
            stop
        } else {
            end
        }
    }

    /// The number written out in canonical form: a numeral that denotes
    /// the number.
    pub fn to_string(&self) -> (text: String)
        ensures
            text@ == self@.text(),
            is_numeral(text@),
            numeral_value(text@) == self@,
    {
        proof {
            use_type_invariant(self);
            lemma_text_denotes_number(self@);
        }
        let mut text = self.whole.clone();
        if self.fraction.as_str().unicode_len() > 0 {
            push_char(&mut text, '.');
            text.append(self.fraction.as_str());
        }
        text
    }
}

impl Clone for Decimal {
    fn clone(&self) -> (r: Self)
        ensures
            r == *self,
    {
        proof {
            use_type_invariant(self);
        }
        Decimal { whole: self.whole.clone(), fraction: self.fraction.clone() }
    }
}

} // verus!
