//! Exact decimal numbers.
//!
//! A [`Decimal`] is a sign, a sequence of decimal digits and the number of
//! those digits that stand after the decimal point. Every literal that the
//! parsers accept is represented exactly, scaling by a power of ten is exact,
//! and the rendered text is canonical: no leading zeros before the point, no
//! trailing zeros after it.

use vstd::arithmetic::power::{lemma_pow0, lemma_pow_adds, pow};
use vstd::prelude::*;

use crate::text::chars_of;

verus! {

/// The natural number written by the decimal digits `d`, most significant
/// first.
pub open spec fn digits_value(d: Seq<u8>) -> nat
    decreases d.len(),
{
    if d.len() == 0 {
        0
    } else {
        digits_value(d.drop_last()) * 10 + d.last() as nat
    }
}

/// `n` zero digits.
pub open spec fn zeros(n: nat) -> Seq<u8> {
    Seq::new(n, |i: int| 0u8)
}

/// `d` without its leading zero digits.
pub open spec fn strip_leading_zeros(d: Seq<u8>) -> Seq<u8>
    decreases d.len(),
{
    if d.len() > 0 && d[0] == 0 {
        strip_leading_zeros(d.drop_first())
    } else {
        d
    }
}

/// `d` without its trailing zero digits.
pub open spec fn strip_trailing_zeros(d: Seq<u8>) -> Seq<u8>
    decreases d.len(),
{
    if d.len() > 0 && d.last() == 0 {
        strip_trailing_zeros(d.drop_last())
    } else {
        d
    }
}

/// Whether `c` is one of the ten ASCII digits.
pub open spec fn is_digit(c: char) -> bool {
    '0' <= c && c <= '9'
}

/// The digit that the character `c` writes.
pub open spec fn digit_of(c: char) -> u8 {
    (c as int - 48) as u8
}

/// The character that writes the digit `d`.
pub open spec fn digit_char(d: u8) -> char {
    (d + 48) as char
}

/// The digits written by the characters `s`.
pub open spec fn digit_values(s: Seq<char>) -> Seq<u8> {
    Seq::new(s.len(), |i: int| digit_of(s[i]))
}

/// The characters that write the digits `d`.
pub open spec fn digit_chars(d: Seq<u8>) -> Seq<char> {
    Seq::new(d.len(), |i: int| digit_char(d[i]))
}

/// Whether every character of `s` is a digit.
pub open spec fn all_digits(s: Seq<char>) -> bool {
    forall|i: int| 0 <= i < s.len() ==> is_digit(#[trigger] s[i])
}

/// The number of characters that the sign of a literal takes: one for a
/// leading `-` or `+`, else none.
pub open spec fn sign_len(s: Seq<char>) -> int {
    if s.len() > 0 && (s[0] == '-' || s[0] == '+') {
        1
    } else {
        0
    }
}

/// The literal `s` without its sign.
pub open spec fn unsigned_part(s: Seq<char>) -> Seq<char> {
    s.skip(sign_len(s))
}

/// What stands before the first decimal point of the unsigned literal `b`:
/// all of it where it has no point.
pub open spec fn integer_text(b: Seq<char>) -> Seq<char> {
    match b.index_of_first('.') {
        Some(p) => b.take(p),
        None => b,
    }
}

/// What stands after the first decimal point of the unsigned literal `b`:
/// nothing where it has no point.
pub open spec fn fraction_text(b: Seq<char>) -> Seq<char> {
    match b.index_of_first('.') {
        Some(p) => b.skip(p + 1),
        None => Seq::empty(),
    }
}

/// The grammar of a decimal literal: an optional sign, then digits with at
/// most one decimal point among them, before them or after them, and at least
/// one digit. There is no exponent and no spelling of infinity or of
/// not-a-number.
pub open spec fn is_literal(s: Seq<char>) -> bool {
    let b = unsigned_part(s);
    &&& all_digits(integer_text(b))
    &&& all_digits(fraction_text(b))
    &&& integer_text(b).len() + fraction_text(b).len() > 0
}

/// The number that the literal `s` writes.
pub open spec fn literal_value(s: Seq<char>) -> DecimalView {
    let b = unsigned_part(s);
    DecimalView {
        negative: s.len() > 0 && s[0] == '-',
        digits: digit_values(integer_text(b) + fraction_text(b)),
        scale: fraction_text(b).len(),
    }
}

/// The mathematical content of a [`Decimal`]: the number
/// `(-1)^negative * digits_value(digits) / 10^scale`.
pub ghost struct DecimalView {
    pub negative: bool,
    pub digits: Seq<u8>,
    pub scale: nat,
}

impl DecimalView {
    /// Every digit is below ten.
    pub open spec fn wf(self) -> bool {
        forall|i: int| 0 <= i < self.digits.len() ==> #[trigger] self.digits[i] < 10
    }

    /// The digits taken as one natural number, the decimal point ignored.
    pub open spec fn magnitude(self) -> nat {
        digits_value(self.digits)
    }

    /// This number times `10^places`: the decimal point moves right, and
    /// zeros are appended where the fraction runs out.
    pub open spec fn shifted(self, places: nat) -> DecimalView {
        if places <= self.scale {
            DecimalView {
                negative: self.negative,
                digits: self.digits,
                scale: (self.scale - places) as nat,
            }
        } else {
            DecimalView {
                negative: self.negative,
                digits: self.digits + zeros((places - self.scale) as nat),
                scale: 0,
            }
        }
    }

    /// The digits before the decimal point.
    pub open spec fn integer_digits(self) -> Seq<u8> {
        if self.scale <= self.digits.len() {
            self.digits.take(self.digits.len() - self.scale)
        } else {
            Seq::empty()
        }
    }

    /// The digits after the decimal point, all `scale` of them.
    pub open spec fn fraction_digits(self) -> Seq<u8> {
        if self.scale <= self.digits.len() {
            self.digits.skip(self.digits.len() - self.scale)
        } else {
            zeros((self.scale - self.digits.len()) as nat) + self.digits
        }
    }

    /// The text of the integer part: its digits without leading zeros, or a
    /// single `0` where none is left.
    pub open spec fn whole_text(self) -> Seq<char> {
        let whole = strip_leading_zeros(self.integer_digits());
        if whole.len() == 0 {
            seq!['0']
        } else {
            digit_chars(whole)
        }
    }

    /// The text of the fraction: nothing where the fraction is zero, else a
    /// point and the fraction digits without trailing zeros.
    pub open spec fn point_text(self) -> Seq<char> {
        let frac = strip_trailing_zeros(self.fraction_digits());
        if frac.len() == 0 {
            Seq::empty()
        } else {
            seq!['.'] + digit_chars(frac)
        }
    }

    /// The text of the sign: `-` where it is set, else nothing.
    pub open spec fn sign_text(self) -> Seq<char> {
        if self.negative {
            seq!['-']
        } else {
            Seq::empty()
        }
    }

    /// The canonical text of this number: the sign, the integer part and the
    /// fraction.
    pub open spec fn text(self) -> Seq<char> {
        self.sign_text() + self.whole_text() + self.point_text()
    }
}

/// An exact decimal number.
#[derive(Debug)]
pub struct Decimal {
    negative: bool,
    digits: Vec<u8>,
    scale: usize,
}

impl View for Decimal {
    type V = DecimalView;

    closed spec fn view(&self) -> DecimalView {
        DecimalView { negative: self.negative, digits: self.digits@, scale: self.scale as nat }
    }
}

/// Appending a digit multiplies by ten and adds the digit; appending zeros
/// multiplies by the matching power of ten.
pub proof fn lemma_digits_value_zeros(d: Seq<u8>, n: nat)
    ensures
        digits_value(d + zeros(n)) == digits_value(d) * pow(10, n),
    decreases n,
{
    if n == 0 {
        assert(d + zeros(0) =~= d);
        lemma_pow0(10);
    } else {
        let m = (n - 1) as nat;
        let whole = d + zeros(n);
        assert(whole.drop_last() =~= d + zeros(m));
        assert(whole.last() == 0);
        lemma_digits_value_zeros(d, m);
        lemma_pow_adds(10, m, 1);
        vstd::arithmetic::power::lemma_pow1(10);
        assert(digits_value(d) * pow(10, m) * 10 == digits_value(d) * (pow(10, m) * 10))
            by (nonlinear_arith);
    }
}

/// Moving the decimal point `places` to the right multiplies the number by
/// `10^places`: with `r = v.shifted(places)`, the fractions
/// `r.magnitude() / 10^r.scale` and `v.magnitude() * 10^places / 10^v.scale`
/// are equal, stated here without division. The sign and the validity of the
/// digits are kept.
pub proof fn lemma_shifted_value(v: DecimalView, places: nat)
    ensures
        v.shifted(places).negative == v.negative,
        v.wf() ==> v.shifted(places).wf(),
        v.shifted(places).magnitude() * pow(10, v.scale) == v.magnitude() * pow(10, places) * pow(
            10,
            v.shifted(places).scale,
        ),
{
    let r = v.shifted(places);
    let m = v.magnitude() as int;
    if places <= v.scale {
        let rest = (v.scale - places) as nat;
        lemma_pow_adds(10, places, rest);
        assert(m * (pow(10, places) * pow(10, rest)) == m * pow(10, places) * pow(10, rest))
            by (nonlinear_arith);
    } else {
        let extra = (places - v.scale) as nat;
        lemma_digits_value_zeros(v.digits, extra);
        lemma_pow_adds(10, v.scale, extra);
        lemma_pow0(10);
        assert(m * pow(10, extra) * pow(10, v.scale) == m * (pow(10, v.scale) * pow(10, extra))
            * 1) by (nonlinear_arith);
    }
}

/// A decimal literal is not empty.
pub proof fn lemma_literal_is_not_empty(s: Seq<char>)
    requires
        is_literal(s),
    ensures
        s.len() > 0,
{
    let b = unsigned_part(s);
    b.index_of_first_ensures('.');
    if s.len() == 0 {
        assert(b.len() == 0);
        assert(integer_text(b).len() == 0);
        assert(fraction_text(b).len() == 0);
    }
}

/// The number that a decimal literal writes holds decimal digits.
pub proof fn lemma_literal_wf(s: Seq<char>)
    requires
        is_literal(s),
    ensures
        literal_value(s).wf(),
{
    let b = unsigned_part(s);
    let all = integer_text(b) + fraction_text(b);
    assert forall|i: int| 0 <= i < all.len() implies #[trigger] literal_value(s).digits[i]
        < 10 by {
        if i < integer_text(b).len() {
            assert(is_digit(integer_text(b)[i]));
        } else {
            assert(is_digit(fraction_text(b)[i - integer_text(b).len()]));
        }
    }
}

/// Stripping leading zeros leaves what starts at the first digit that is not
/// zero.
proof fn lemma_strip_leading(d: Seq<u8>, k: int)
    requires
        0 <= k <= d.len(),
        forall|i: int| 0 <= i < k ==> d[i] == 0,
        k < d.len() ==> d[k] != 0,
    ensures
        strip_leading_zeros(d) == d.skip(k),
    decreases k,
{
    if k == 0 {
        assert(d.skip(0) =~= d);
    } else {
        let rest = d.drop_first();
        assert forall|i: int| 0 <= i < k - 1 implies rest[i] == 0 by {
            assert(rest[i] == d[i + 1]);
        }
        lemma_strip_leading(rest, k - 1);
        assert(rest.skip(k - 1) =~= d.skip(k));
    }
}

/// Stripping trailing zeros leaves what ends at the last digit that is not
/// zero.
proof fn lemma_strip_trailing(d: Seq<u8>, k: int)
    requires
        0 <= k <= d.len(),
        forall|i: int| k <= i < d.len() ==> d[i] == 0,
        k > 0 ==> d[k - 1] != 0,
    ensures
        strip_trailing_zeros(d) == d.take(k),
    decreases d.len() - k,
{
    if k == d.len() {
        assert(d.take(k) =~= d);
    } else {
        let rest = d.drop_last();
        lemma_strip_trailing(rest, k);
        assert(rest.take(k) =~= d.take(k));
    }
}

/// Whether `c` is a digit.
fn is_digit_char(c: char) -> (r: bool)
    ensures
        r == is_digit(c),
{
    '0' <= c && c <= '9'
}

/// Appends to `out` the characters that write `digits[from..to]`.
fn push_digit_chars(out: &mut String, digits: &Vec<u8>, from: usize, to: usize)
    requires
        from <= to <= digits.len(),
        forall|i: int| 0 <= i < digits.len() ==> #[trigger] digits[i] < 10,
    ensures
        final(out)@ == old(out)@ + digit_chars(digits@.subrange(from as int, to as int)),
{
    let mut i: usize = from;
    while i < to
        invariant
            from <= i <= to <= digits.len(),
            forall|i: int| 0 <= i < digits.len() ==> #[trigger] digits[i] < 10,
            out@ == old(out)@ + digit_chars(digits@.subrange(from as int, i as int)),
        decreases to - i,
    {
        let d: u8 = digits[i];
        out.push((d + 48) as char);
        proof {
            let before = digits@.subrange(from as int, i as int);
            let after = digits@.subrange(from as int, i + 1);
            assert(after =~= before.push(d));
            assert(digit_chars(after) =~= digit_chars(before).push(digit_char(d)));
        }
        i += 1;
    }
}

impl Decimal {
    /// The number zero.
    pub fn zero() -> (r: Decimal)
        ensures
            r@ == (DecimalView { negative: false, digits: seq![0u8], scale: 0 }),
            r@.wf(),
    {
        let mut digits: Vec<u8> = Vec::new();
        digits.push(0);
        Decimal { negative: false, digits, scale: 0 }
    }

    #[verifier::type_invariant]
    spec fn digits_are_decimal(&self) -> bool {
        forall|i: int| 0 <= i < self.digits@.len() ==> #[trigger] self.digits@[i] < 10
    }

    /// Does nothing when run; to a verified caller it shows that the digits
    /// of a `Decimal` are decimal digits.
    pub fn establish_wf(&self)
        ensures
            self@.wf(),
    {
        proof {
            use_type_invariant(self);
        }
    }

    /// Reads the decimal literal `text`: `Some` exactly where `text` follows
    /// the grammar [`is_literal`], and then the number that it writes.
    pub fn parse(text: &str) -> (r: Option<Decimal>)
        ensures
            r is Some <==> is_literal(text@),
            r matches Some(d) ==> d@ == literal_value(text@) && d@.wf(),
    {
        let chars = chars_of(text);
        Decimal::from_chars(&chars)
    }

    /// Reads the decimal literal that the characters `s` spell: `Some`
    /// exactly where they follow the grammar [`is_literal`], and then the
    /// number that they write.
    pub fn from_chars(s: &Vec<char>) -> (r: Option<Decimal>)
        ensures
            r is Some <==> is_literal(s@),
            r matches Some(d) ==> d@ == literal_value(s@) && d@.wf(),
    {
        let n = s.len();
        let negative = n > 0 && s[0] == '-';
        let start: usize = if n > 0 && (s[0] == '-' || s[0] == '+') {
            1
        } else {
            0
        };
        let ghost b = unsigned_part(s@);
        proof {
            b.index_of_first_ensures('.');
        }
        // The first decimal point, or the end where there is none.
        let mut point: usize = start;
        while point < n && s[point] != '.'
            invariant
                start <= point <= n,
                n == s.len(),
                start == sign_len(s@),
                b == s@.skip(start as int),
                forall|i: int| 0 <= i < point - start ==> b[i] != '.',
            decreases n - point,
        {
            point += 1;
        }
        let ghost p = point - start;
        proof {
            if point < n {
                assert(b[p] == '.');
                assert(b.contains('.'));
                assert(b.index_of_first('.') == Some(p));
                assert(integer_text(b) == b.take(p));
                assert(fraction_text(b) == b.skip(p + 1));
            } else {
                assert(!b.contains('.'));
                assert(integer_text(b) =~= b.take(p));
                assert(fraction_text(b) =~= Seq::<char>::empty());
            }
        }
        let mut digits: Vec<u8> = Vec::new();
        let mut i: usize = start;
        while i < point
            invariant
                start <= i <= point <= n,
                n == s.len(),
                b == s@.skip(start as int),
                p == point - start,
                b == unsigned_part(s@),
                integer_text(b) == b.take(p),
                digits@ == digit_values(b.take(i - start)),
                all_digits(b.take(i - start)),
                forall|k: int| 0 <= k < digits@.len() ==> #[trigger] digits@[k] < 10,
            decreases point - i,
        {
            let c = s[i];
            if !is_digit_char(c) {
                proof {
                    assert(integer_text(b)[i - start] == c);
                }
                return None;
            }
            digits.push((c as u32 - 48) as u8);
            proof {
                let before = b.take(i - start);
                let after = b.take(i - start + 1);
                assert(after =~= before.push(c));
                assert(digit_values(after) =~= digit_values(before).push(digit_of(c)));
            }
            i += 1;
        }
        let ghost int_text = integer_text(b);
        let ghost frac_text = fraction_text(b);
        let from: usize = if point < n {
            point + 1
        } else {
            n
        };
        assert(frac_text =~= s@.skip(from as int));
        assert(digit_values(int_text + frac_text.take(0)) =~= digit_values(int_text));
        let mut j: usize = from;
        while j < n
            invariant
                from <= j <= n,
                n == s.len(),
                frac_text == s@.skip(from as int),
                frac_text == fraction_text(unsigned_part(s@)),
                all_digits(int_text),
                digits@ == digit_values(int_text + frac_text.take(j - from)),
                all_digits(frac_text.take(j - from)),
                forall|k: int| 0 <= k < digits@.len() ==> #[trigger] digits@[k] < 10,
            decreases n - j,
        {
            let c = s[j];
            if !is_digit_char(c) {
                proof {
                    assert(frac_text[j - from] == c);
                }
                return None;
            }
            digits.push((c as u32 - 48) as u8);
            proof {
                let before = int_text + frac_text.take(j - from);
                let after = int_text + frac_text.take(j - from + 1);
                assert(after =~= before.push(c));
                assert(digit_values(after) =~= digit_values(before).push(digit_of(c)));
            }
            j += 1;
        }
        assert(frac_text.take(n - from) =~= frac_text);
        if digits.len() == 0 {
            return None;
        }
        Some(Decimal { negative, digits, scale: n - from })
    }

    /// This number times `10^places`, exactly.
    pub fn times_pow10(self, places: usize) -> (r: Decimal)
        ensures
            r@ == self@.shifted(places as nat),
            r@.wf(),
            r@.negative == self@.negative,
            r@.magnitude() * pow(10, self@.scale) == self@.magnitude() * pow(10, places as nat)
                * pow(10, r@.scale),
    {
        proof {
            use_type_invariant(&self);
            lemma_shifted_value(self@, places as nat);
        }
        if places <= self.scale {
            Decimal { negative: self.negative, digits: self.digits, scale: self.scale - places }
        } else {
            let extra: usize = places - self.scale;
            let ghost old_digits = self.digits@;
            let mut digits = self.digits;
            let mut k: usize = 0;
            while k < extra
                invariant
                    k <= extra,
                    digits@ == old_digits + zeros(k as nat),
                    forall|i: int| 0 <= i < old_digits.len() ==> #[trigger] old_digits[i] < 10,
                decreases extra - k,
            {
                digits.push(0);
                assert(digits@ =~= old_digits + zeros((k + 1) as nat));
                k += 1;
            }
            Decimal { negative: self.negative, digits, scale: 0 }
        }
    }

    /// Whether the sign is set.
    pub fn is_negative(&self) -> (r: bool)
        ensures
            r == self@.negative,
    {
        self.negative
    }

    /// The number of digits after the decimal point.
    pub fn scale(&self) -> (r: usize)
        ensures
            r == self@.scale,
    {
        self.scale
    }

    /// The digits, most significant first.
    pub fn digits(&self) -> (r: Vec<u8>)
        ensures
            r@ == self@.digits,
    {
        self.digits.clone()
    }

    /// A copy of this number.
    pub fn duplicate(&self) -> (r: Decimal)
        ensures
            r@ == self@,
    {
        proof {
            use_type_invariant(self);
        }
        Decimal { negative: self.negative, digits: self.digits.clone(), scale: self.scale }
    }

    /// Appends the text of the integer part to `out`.
    fn push_whole(&self, out: &mut String)
        ensures
            final(out)@ == old(out)@ + self@.whole_text(),
    {
        proof {
            use_type_invariant(self);
        }
        let n = self.digits.len();
        let int_end: usize = if self.scale <= n {
            n - self.scale
        } else {
            0
        };
        let ghost whole = self@.integer_digits();
        assert(whole =~= self.digits@.take(int_end as int));
        // The first integer digit that is not zero.
        let mut lead: usize = 0;
        while lead < int_end && self.digits[lead] == 0
            invariant
                lead <= int_end <= n,
                n == self.digits.len(),
                forall|i: int| 0 <= i < lead ==> self.digits@[i] == 0,
            decreases int_end - lead,
        {
            lead += 1;
        }
        proof {
            lemma_strip_leading(whole, lead as int);
            assert(whole.skip(lead as int) =~= self.digits@.subrange(lead as int, int_end as int));
        }
        if lead == int_end {
            out.push('0');
            assert(out@ =~= old(out)@ + seq!['0']);
        } else {
            push_digit_chars(out, &self.digits, lead, int_end);
        }
    }

    /// Appends the text of the fraction to `out`.
    fn push_fraction(&self, out: &mut String)
        ensures
            final(out)@ == old(out)@ + self@.point_text(),
    {
        proof {
            use_type_invariant(self);
        }
        let n = self.digits.len();
        let int_end: usize = if self.scale <= n {
            n - self.scale
        } else {
            0
        };
        let pad: usize = if self.scale <= n {
            0
        } else {
            self.scale - n
        };
        let ghost frac = self@.fraction_digits();
        assert(frac =~= zeros(pad as nat) + self.digits@.skip(int_end as int));
        // The end of the fraction digits that are not zero.
        let mut last: usize = n;
        while last > int_end && self.digits[last - 1] == 0
            invariant
                int_end <= last <= n,
                n == self.digits.len(),
                forall|i: int| last <= i < n ==> self.digits@[i] == 0,
            decreases last,
        {
            last -= 1;
        }
        if last == int_end {
            proof {
                lemma_strip_trailing(frac, 0);
                assert(frac.take(0) =~= Seq::<u8>::empty());
                assert(out@ =~= old(out)@ + Seq::<char>::empty());
            }
        } else {
            let ghost tail = self.digits@.subrange(int_end as int, last as int);
            proof {
                let keep = pad + (last - int_end);
                assert(frac[keep - 1] == self.digits@[last - 1]);
                lemma_strip_trailing(frac, keep);
                assert(frac.take(keep) =~= zeros(pad as nat) + tail);
            }
            out.push('.');
            let mut k: usize = 0;
            while k < pad
                invariant
                    k <= pad,
                    out@ == old(out)@ + seq!['.'] + digit_chars(zeros(k as nat)),
                decreases pad - k,
            {
                out.push('0');
                assert(digit_chars(zeros((k + 1) as nat)) =~= digit_chars(zeros(k as nat)).push(
                    '0',
                ));
                k += 1;
            }
            push_digit_chars(out, &self.digits, int_end, last);
            proof {
                assert(digit_chars(zeros(pad as nat) + tail) =~= digit_chars(zeros(pad as nat))
                    + digit_chars(tail));
                assert(out@ =~= old(out)@ + (seq!['.'] + digit_chars(zeros(pad as nat) + tail)));
            }
        }
    }

    /// The canonical text of this number.
    pub fn to_text(&self) -> (r: String)
        ensures
            r@ == self@.text(),
    {
        let mut out = String::new();
        if self.negative {
            out.push('-');
        }
        assert(out@ =~= self@.sign_text());
        self.push_whole(&mut out);
        self.push_fraction(&mut out);
        out
    }
}

} // verus!
