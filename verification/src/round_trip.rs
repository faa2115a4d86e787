//! The canonical text of a decimal number reads back as the same number.

use vstd::arithmetic::power::{lemma_pow_adds, pow};
use vstd::prelude::*;

use crate::decimal::{
    all_digits, digit_char, digit_chars, digit_of, digit_values, digits_value, fraction_text,
    integer_text, is_digit, is_literal, lemma_digits_value_zeros, literal_value,
    strip_leading_zeros, strip_trailing_zeros, unsigned_part, zeros, DecimalView,
};

verus! {

/// Whether `a` and `b` are the same number: the signs agree, and the
/// fractions `a.magnitude() / 10^a.scale` and `b.magnitude() / 10^b.scale`
/// are equal.
pub open spec fn same_number(a: DecimalView, b: DecimalView) -> bool {
    &&& a.negative == b.negative
    &&& a.magnitude() * pow(10, b.scale) == b.magnitude() * pow(10, a.scale)
}

/// Whether every digit of `d` is below ten.
pub open spec fn decimal_digits(d: Seq<u8>) -> bool {
    forall|i: int| 0 <= i < d.len() ==> #[trigger] d[i] < 10
}

/// A zero in front does not change the number that digits write.
pub proof fn lemma_leading_zero(d: Seq<u8>)
    ensures
        digits_value(seq![0u8] + d) == digits_value(d),
    decreases d.len(),
{
    let whole = seq![0u8] + d;
    if d.len() == 0 {
        assert(whole.drop_last() =~= Seq::<u8>::empty());
        assert(whole.last() == 0);
        assert(digits_value(whole.drop_last()) == 0);
    } else {
        assert(whole.drop_last() =~= seq![0u8] + d.drop_last());
        assert(whole.last() == d.last());
        lemma_leading_zero(d.drop_last());
    }
}

/// Zeros in front do not change the number that digits write.
pub proof fn lemma_leading_zeros(n: nat, d: Seq<u8>)
    ensures
        digits_value(zeros(n) + d) == digits_value(d),
    decreases n,
{
    if n == 0 {
        assert(zeros(0) + d =~= d);
    } else {
        let m = (n - 1) as nat;
        assert(zeros(n) + d =~= seq![0u8] + (zeros(m) + d));
        lemma_leading_zero(zeros(m) + d);
        lemma_leading_zeros(m, d);
    }
}

/// Stripping the leading zeros of the front part does not change the number
/// that the whole writes, and leaves some of the digits.
pub proof fn lemma_strip_leading_value(a: Seq<u8>, x: Seq<u8>)
    ensures
        digits_value(strip_leading_zeros(a) + x) == digits_value(a + x),
        decimal_digits(a) ==> decimal_digits(strip_leading_zeros(a)),
    decreases a.len(),
{
    if a.len() > 0 && a[0] == 0 {
        let rest = a.drop_first();
        lemma_strip_leading_value(rest, x);
        assert(a + x =~= seq![0u8] + (rest + x));
        lemma_leading_zero(rest + x);
        if decimal_digits(a) {
            assert forall|i: int| 0 <= i < rest.len() implies #[trigger] rest[i] < 10 by {
                assert(rest[i] == a[i + 1]);
            }
        }
    }
}

/// The trailing zeros that are stripped are all that is missing: what is
/// left, followed by as many zeros as were taken, is the whole.
pub proof fn lemma_strip_trailing_parts(f: Seq<u8>)
    ensures
        strip_trailing_zeros(f).len() <= f.len(),
        strip_trailing_zeros(f) + zeros((f.len() - strip_trailing_zeros(f).len()) as nat) == f,
        decimal_digits(f) ==> decimal_digits(strip_trailing_zeros(f)),
    decreases f.len(),
{
    let kept = strip_trailing_zeros(f);
    if f.len() > 0 && f.last() == 0 {
        let rest = f.drop_last();
        lemma_strip_trailing_parts(rest);
        let taken = (rest.len() - kept.len()) as nat;
        assert(zeros(taken + 1) =~= zeros(taken).push(0u8));
        assert(f =~= rest.push(0u8));
        assert(kept + zeros((f.len() - kept.len()) as nat) =~= f);
        if decimal_digits(f) {
            assert forall|i: int| 0 <= i < rest.len() implies #[trigger] rest[i] < 10 by {
                assert(rest[i] == f[i]);
            }
        }
    } else {
        assert(kept + zeros(0) =~= f);
    }
}

/// Decimal digits are read back from the characters that write them.
pub proof fn lemma_digit_chars_read_back(d: Seq<u8>)
    requires
        decimal_digits(d),
    ensures
        all_digits(digit_chars(d)),
        digit_values(digit_chars(d)) == d,
{
    assert forall|i: int| 0 <= i < d.len() implies is_digit(#[trigger] digit_chars(d)[i]) by {
        assert(d[i] < 10);
    }
    assert forall|i: int| 0 <= i < d.len() implies digit_values(digit_chars(d))[i] == d[i] by {
        assert(d[i] < 10);
        assert(digit_of(digit_char(d[i])) == d[i]);
    }
    assert(digit_values(digit_chars(d)) =~= d);
}

/// The integer digits followed by the fraction digits write the same number
/// as all the digits.
pub proof fn lemma_parts_value(v: DecimalView)
    ensures
        digits_value(v.integer_digits() + v.fraction_digits()) == v.magnitude(),
        v.fraction_digits().len() == v.scale,
        v.wf() ==> decimal_digits(v.integer_digits()) && decimal_digits(v.fraction_digits()),
{
    if v.scale <= v.digits.len() {
        assert(v.integer_digits() + v.fraction_digits() =~= v.digits);
    } else {
        let pad = (v.scale - v.digits.len()) as nat;
        assert(v.integer_digits() + v.fraction_digits() =~= zeros(pad) + v.digits);
        lemma_leading_zeros(pad, v.digits);
    }
}

/// The digits that the text of the integer part writes: the integer digits
/// without leading zeros, or a single zero where none is left.
pub open spec fn whole_digits(v: DecimalView) -> Seq<u8> {
    let lead = strip_leading_zeros(v.integer_digits());
    if lead.len() == 0 {
        seq![0u8]
    } else {
        lead
    }
}

/// The digits that the text of the fraction writes: the fraction digits
/// without trailing zeros.
pub open spec fn kept_digits(v: DecimalView) -> Seq<u8> {
    strip_trailing_zeros(v.fraction_digits())
}

/// The text of the integer part is never empty and holds digits only, and
/// so does the text of the fraction after its point.
pub proof fn lemma_text_digits(v: DecimalView)
    requires
        v.wf(),
    ensures
        decimal_digits(whole_digits(v)),
        decimal_digits(kept_digits(v)),
        v.whole_text() == digit_chars(whole_digits(v)),
        v.whole_text().len() > 0,
        all_digits(v.whole_text()),
        all_digits(digit_chars(kept_digits(v))),
{
    lemma_parts_value(v);
    lemma_strip_leading_value(v.integer_digits(), Seq::<u8>::empty());
    lemma_strip_trailing_parts(v.fraction_digits());
    lemma_digit_chars_read_back(whole_digits(v));
    lemma_digit_chars_read_back(kept_digits(v));
    assert(v.whole_text() =~= digit_chars(whole_digits(v)));
}

/// What follows the sign in the text of a number is the text of the integer
/// part and then that of the fraction, and the sign of the text is the sign
/// of the number.
pub proof fn lemma_text_sign(v: DecimalView)
    requires
        v.wf(),
    ensures
        unsigned_part(v.text()) == v.whole_text() + v.point_text(),
        literal_value(v.text()).negative == v.negative,
{
    let whole = v.whole_text();
    let point = v.point_text();
    let text = v.text();
    lemma_text_digits(v);
    assert(is_digit(whole[0]));
    if v.negative {
        assert(text[0] == '-');
        assert(text.skip(1) =~= whole + point);
    } else {
        assert(text =~= whole + point);
        assert(text[0] == whole[0]);
        assert(text.skip(0) =~= text);
    }
}

/// The first point of the text, where the text has one, is the point of
/// the fraction: before it stands the text of the integer part, after it the
/// digits of the fraction.
pub proof fn lemma_text_point(v: DecimalView)
    requires
        v.wf(),
    ensures
        integer_text(v.whole_text() + v.point_text()) == v.whole_text(),
        fraction_text(v.whole_text() + v.point_text()) == digit_chars(kept_digits(v)),
{
    let whole = v.whole_text();
    let kept = kept_digits(v);
    let b = whole + v.point_text();
    lemma_text_digits(v);
    b.index_of_first_ensures('.');
    assert forall|i: int| 0 <= i < whole.len() implies b[i] != '.' by {
        assert(b[i] == whole[i]);
        assert(is_digit(whole[i]));
    }
    if kept.len() == 0 {
        assert(b =~= whole);
        assert(!b.contains('.'));
        assert(fraction_text(b) =~= digit_chars(kept));
    } else {
        let at = whole.len() as int;
        assert(b[at] == '.');
        assert(b.contains('.'));
        assert(b.index_of_first('.') == Some(at));
        assert(integer_text(b) =~= whole);
        assert(fraction_text(b) =~= digit_chars(kept));
    }
}

/// The digits of the text write the number without the trailing zeros of
/// its fraction.
pub proof fn lemma_text_value(v: DecimalView)
    requires
        v.wf(),
    ensures
        kept_digits(v).len() <= v.scale,
        v.magnitude() == digits_value(whole_digits(v) + kept_digits(v)) * pow(
            10,
            (v.scale - kept_digits(v).len()) as nat,
        ),
{
    let a = v.integer_digits();
    let f = v.fraction_digits();
    let kept = kept_digits(v);
    lemma_parts_value(v);
    lemma_strip_leading_value(a, kept);
    lemma_strip_trailing_parts(f);
    if strip_leading_zeros(a).len() == 0 {
        assert(strip_leading_zeros(a) + kept =~= kept);
        lemma_leading_zero(kept);
    }
    let taken = (f.len() - kept.len()) as nat;
    assert(a + f =~= (a + kept) + zeros(taken));
    lemma_digits_value_zeros(a + kept, taken);
}

/// The canonical text of a number is a decimal literal, and the literal
/// writes the number: rendering loses nothing.
pub proof fn lemma_text_reads_back(v: DecimalView)
    requires
        v.wf(),
    ensures
        is_literal(v.text()),
        same_number(literal_value(v.text()), v),
{
    let whole = v.whole_text();
    let kept = kept_digits(v);
    let read = literal_value(v.text());
    lemma_text_digits(v);
    lemma_text_sign(v);
    lemma_text_point(v);
    lemma_text_value(v);
    assert(read.digits =~= whole_digits(v) + kept) by {
        assert(digit_values(whole + digit_chars(kept)) =~= digit_values(whole) + digit_values(
            digit_chars(kept),
        ));
        lemma_digit_chars_read_back(whole_digits(v));
        lemma_digit_chars_read_back(kept);
    }
    let taken = (v.scale - kept.len()) as nat;
    lemma_pow_adds(10, kept.len(), taken);
    let m = read.magnitude() as int;
    assert(m * pow(10, v.scale) == m * pow(10, taken) * pow(10, kept.len())) by (nonlinear_arith)
        requires
            pow(10, v.scale) == pow(10, kept.len()) * pow(10, taken),
    ;
}

} // verus!
