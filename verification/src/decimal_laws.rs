//! What decimal numbers mean: the natural numbers that digits spell, and
//! the laws that make the canonical form of a number stand for the number.

use crate::decimal::{
    is_digits, is_numeral, lemma_numeral_value_is_canonical, numeral_value, trim_leading_zeros,
    trim_trailing_zeros, DecimalView,
};
use crate::text::{run_len, CharClass};
use vstd::prelude::*;

verus! {

/// Ten to the power of `n`.
pub open spec fn pow10(n: nat) -> nat
    decreases n,
{
    if n == 0 {
        1
    } else {
        10 * pow10((n - 1) as nat)
    }
}

/// The value of the digit `c`.
pub open spec fn digit_value(c: char) -> nat {
    (c as int - '0' as int) as nat
}

/// The natural number that `digits` spell.
pub open spec fn digits_value(digits: Seq<char>) -> nat
    decreases digits.len(),
{
    if digits.len() == 0 {
        0
    } else {
        10 * digits_value(digits.drop_last()) + digit_value(digits.last())
    }
}

/// The digits of the numeral `text` as they are written: those before the
/// point and those after it.
pub open spec fn numeral_digits(text: Seq<char>) -> DecimalView {
    let whole = run_len(text, 0, CharClass::Digit) as int;
    DecimalView {
        whole: text.subrange(0, whole),
        fraction: if whole < text.len() {
            text.subrange(whole + 1, text.len() as int)
        } else {
            Seq::empty()
        },
    }
}

impl DecimalView {
    /// The digits read as one natural number, the point left out.
    pub open spec fn unscaled(self) -> nat {
        digits_value(self.whole + self.fraction)
    }

    /// The number of digits after the point. The number is `unscaled`
    /// divided by ten to the power of `scale`.
    pub open spec fn scale(self) -> nat {
        self.fraction.len()
    }

    /// Whether `self` and `other` are the same number, however many zeros
    /// each is written with.
    pub open spec fn same_number(self, other: DecimalView) -> bool {
        self.unscaled() * pow10(other.scale()) == other.unscaled() * pow10(self.scale())
    }
}

/// A power of ten is positive, and powers of ten multiply by adding their
/// exponents.
pub proof fn lemma_pow10(a: nat, b: nat)
    ensures
        pow10(a) > 0,
        pow10(a + b) == pow10(a) * pow10(b),
    decreases a,
{
    if a > 0 {
        let rest = pow10((a - 1) as nat) as int;
        let other = pow10(b) as int;
        lemma_pow10((a - 1) as nat, b);
        assert(10 * (rest * other) == (10 * rest) * other) by (nonlinear_arith);
    } else {
        assert(pow10(0 + b) == 1 * pow10(b));
    }
}

/// Digits spell a number below the power of ten of their count.
pub proof fn lemma_digits_value_is_bounded(digits: Seq<char>)
    requires
        is_digits(digits),
    ensures
        digits_value(digits) < pow10(digits.len()),
    decreases digits.len(),
{
    if digits.len() > 0 {
        lemma_digits_value_is_bounded(digits.drop_last());
    }
}

/// Digits that begin with another digit than zero spell a number that is
/// at least the power of ten of their count less one.
pub proof fn lemma_digits_value_is_large(digits: Seq<char>)
    requires
        is_digits(digits),
        digits.len() > 0,
        digits[0] != '0',
    ensures
        digits_value(digits) >= pow10((digits.len() - 1) as nat),
    decreases digits.len(),
{
    if digits.len() > 1 {
        lemma_digits_value_is_large(digits.drop_last());
    }
}

/// What digits followed by other digits spell: the first number times the
/// power of ten of the count of the other digits, and the second number.
pub proof fn lemma_digits_value_of_concat(a: Seq<char>, b: Seq<char>)
    ensures
        digits_value(a + b) == digits_value(a) * pow10(b.len()) + digits_value(b),
    decreases b.len(),
{
    if b.len() == 0 {
        assert(a + b =~= a);
        assert(digits_value(a) * 1 == digits_value(a));
    } else {
        let rest = b.drop_last();
        assert((a + b).drop_last() =~= a + rest);
        lemma_digits_value_of_concat(a, rest);
        let va = digits_value(a) as int;
        let vr = digits_value(rest) as int;
        let p = pow10(rest.len()) as int;
        assert(10 * (va * p + vr) == va * (10 * p) + 10 * vr) by (nonlinear_arith);
    }
}

/// As many digits that spell the same number are the same digits.
pub proof fn lemma_digits_value_is_injective(a: Seq<char>, b: Seq<char>)
    requires
        is_digits(a),
        is_digits(b),
        a.len() == b.len(),
        digits_value(a) == digits_value(b),
    ensures
        a == b,
    decreases a.len(),
{
    if a.len() > 0 {
        lemma_digits_value_is_injective(a.drop_last(), b.drop_last());
        assert(a =~= a.drop_last().push(a.last()));
        assert(b =~= b.drop_last().push(b.last()));
    }
}

/// Leading zeros do not change what digits spell.
pub proof fn lemma_leading_zeros_do_not_count(digits: Seq<char>)
    ensures
        digits_value(trim_leading_zeros(digits)) == digits_value(digits),
    decreases digits.len(),
{
    if digits.len() > 1 && digits[0] == '0' {
        let rest = digits.drop_first();
        lemma_leading_zeros_do_not_count(rest);
        assert(digits =~= seq!['0'] + rest);
        lemma_digits_value_of_concat(seq!['0'], rest);
        assert(seq!['0'].drop_last() =~= Seq::<char>::empty());
        assert(digits_value(seq!['0']) == 10 * digits_value(Seq::<char>::empty())
            + digit_value('0'));
        assert(0 * pow10(rest.len()) == 0);
    }
}

/// Each trailing zero multiplies what digits spell by ten.
pub proof fn lemma_trailing_zeros_scale(digits: Seq<char>)
    ensures
        trim_trailing_zeros(digits).len() <= digits.len(),
        digits_value(digits) == digits_value(trim_trailing_zeros(digits)) * pow10(
            (digits.len() - trim_trailing_zeros(digits).len()) as nat,
        ),
    decreases digits.len(),
{
    if digits.len() > 0 && digits.last() == '0' {
        let rest = digits.drop_last();
        lemma_trailing_zeros_scale(rest);
        let trimmed = trim_trailing_zeros(rest);
        let k = (rest.len() - trimmed.len()) as nat;
        let v = digits_value(trimmed) as int;
        let p = pow10(k) as int;
        assert(10 * (v * p) == v * (10 * p)) by (nonlinear_arith);
    } else {
        assert(digits_value(digits) * 1 == digits_value(digits));
    }
}

/// The value of a numeral is the number that its digits denote: leaving
/// out leading and trailing zeros changes the form, not the number.
pub proof fn lemma_numeral_value_is_exact(text: Seq<char>)
    requires
        is_numeral(text),
    ensures
        numeral_value(text).same_number(numeral_digits(text)),
{
    let written = numeral_digits(text);
    let value = numeral_value(text);
    let k = (written.fraction.len() - value.fraction.len()) as nat;
    lemma_leading_zeros_do_not_count(written.whole);
    lemma_trailing_zeros_scale(written.fraction);
    lemma_digits_value_of_concat(written.whole, written.fraction);
    lemma_digits_value_of_concat(value.whole, value.fraction);
    lemma_pow10(value.fraction.len(), k);
    let w = digits_value(written.whole) as int;
    let f = digits_value(value.fraction) as int;
    let pv = pow10(value.fraction.len()) as int;
    let pk = pow10(k) as int;
    assert(value.unscaled() == w * pv + f);
    assert(written.unscaled() == w * (pv * pk) + f * pk);
    assert((w * pv + f) * (pv * pk) == (w * (pv * pk) + f * pk) * pv) by (nonlinear_arith);
}

/// The same number has one canonical form only.
pub proof fn lemma_canonical_form_is_unique(a: DecimalView, b: DecimalView)
    requires
        a.is_canonical(),
        b.is_canonical(),
        a.same_number(b),
    ensures
        a == b,
{
    lemma_same_scale(a, b);
    lemma_same_scale(b, a);
    let p = pow10(a.scale()) as int;
    lemma_pow10(a.scale(), 0);
    let ua = a.unscaled() as int;
    let ub = b.unscaled() as int;
    assert(ua == ub) by (nonlinear_arith)
        requires
            ua * p == ub * p,
            p > 0,
    ;
    lemma_digits_value_of_concat(a.whole, a.fraction);
    lemma_digits_value_of_concat(b.whole, b.fraction);
    lemma_digits_value_is_bounded(a.fraction);
    lemma_digits_value_is_bounded(b.fraction);
    let wa = digits_value(a.whole) as int;
    let wb = digits_value(b.whole) as int;
    let fa = digits_value(a.fraction) as int;
    let fb = digits_value(b.fraction) as int;
    assert(wa == wb && fa == fb) by (nonlinear_arith)
        requires
            wa * p + fa == wb * p + fb,
            0 <= fa < p,
            0 <= fb < p,
            0 <= wa,
            0 <= wb,
    ;
    lemma_digits_value_is_injective(a.fraction, b.fraction);
    lemma_same_count(a.whole, b.whole);
    lemma_same_count(b.whole, a.whole);
    lemma_digits_value_is_injective(a.whole, b.whole);
}

/// Of two canonical forms of one number, the first has no more digits
/// after the point than the second.
proof fn lemma_same_scale(a: DecimalView, b: DecimalView)
    requires
        a.is_canonical(),
        b.is_canonical(),
        a.same_number(b) || b.same_number(a),
    ensures
        a.scale() <= b.scale(),
{
    if a.scale() > b.scale() {
        // Then the last digit after the point of `a` is a zero.
        let d = (a.scale() - b.scale() - 1) as nat;
        lemma_pow10(b.scale(), d + 1);
        lemma_pow10(d, 1);
        assert(pow10(1) == 10) by {
            assert(pow10(0) == 1);
        }
        let digits = a.whole + a.fraction;
        assert(digits.last() == a.fraction.last());
        let ua = a.unscaled() as int;
        let ub = b.unscaled() as int;
        let pb = pow10(b.scale()) as int;
        let pd = pow10(d) as int;
        let rest = digits_value(digits.drop_last()) as int;
        let last = digit_value(digits.last()) as int;
        assert(ua == 10 * rest + last);
        assert(ua * pb == ub * (pb * (pd * 10)));
        assert(ua == ub * (pd * 10)) by (nonlinear_arith)
            requires
                ua * pb == ub * (pb * (pd * 10)),
                pb > 0,
        ;
        assert(ub * (pd * 10) == 10 * (ub * pd)) by (nonlinear_arith);
        assert(last == 0);
    }
}

/// Of two runs of digits without a needless leading zero that spell one
/// number, the first has no more digits than the second.
proof fn lemma_same_count(a: Seq<char>, b: Seq<char>)
    requires
        is_digits(a),
        is_digits(b),
        a.len() > 0,
        b.len() > 0,
        a.len() > 1 ==> a[0] != '0',
        b.len() > 1 ==> b[0] != '0',
        digits_value(a) == digits_value(b),
    ensures
        a.len() <= b.len(),
{
    if a.len() > b.len() {
        lemma_digits_value_is_large(a);
        lemma_digits_value_is_bounded(b);
        lemma_pow10(b.len(), (a.len() - 1 - b.len()) as nat);
        lemma_pow10((a.len() - 1 - b.len()) as nat, 0);
        let pb = pow10(b.len()) as int;
        let pd = pow10((a.len() - 1 - b.len()) as nat) as int;
        assert(pb * pd >= pb) by (nonlinear_arith)
            requires
                pb > 0,
                pd >= 1,
        ;
    }
}

/// Being the same number is passed on: what is the same number as a
/// second, which is the same number as a third, is the same number as the
/// third.
pub proof fn lemma_same_number_is_transitive(a: DecimalView, b: DecimalView, c: DecimalView)
    requires
        a.same_number(b),
        b.same_number(c),
    ensures
        a.same_number(c),
{
    let ua = a.unscaled() as int;
    let ub = b.unscaled() as int;
    let uc = c.unscaled() as int;
    let pa = pow10(a.scale()) as int;
    let pb = pow10(b.scale()) as int;
    let pc = pow10(c.scale()) as int;
    lemma_pow10(b.scale(), 0);
    assert(ua * pc == uc * pa) by (nonlinear_arith)
        requires
            ua * pb == ub * pa,
            ub * pc == uc * pb,
            pb > 0,
    ;
}

/// Two numerals have the same value exactly when their digits denote the
/// same number.
pub proof fn lemma_values_are_equal_iff_same_number(first: Seq<char>, second: Seq<char>)
    requires
        is_numeral(first),
        is_numeral(second),
    ensures
        numeral_value(first) == numeral_value(second) <==> numeral_digits(first).same_number(
            numeral_digits(second),
        ),
{
    lemma_numeral_value_is_exact(first);
    lemma_numeral_value_is_exact(second);
    lemma_numeral_value_is_canonical(first);
    lemma_numeral_value_is_canonical(second);
    let v1 = numeral_value(first);
    let v2 = numeral_value(second);
    let d1 = numeral_digits(first);
    let d2 = numeral_digits(second);
    if v1 == v2 {
        lemma_same_number_is_transitive(d1, v1, d2);
    }
    if d1.same_number(d2) {
        lemma_same_number_is_transitive(v1, d1, d2);
        lemma_same_number_is_transitive(v1, d2, v2);
        lemma_canonical_form_is_unique(v1, v2);
    }
}

} // verus!
