//! Byte units and the conversion of a magnitude with a unit into bytes.

use vstd::arithmetic::power::{lemma_pow0, lemma_pow1, lemma_pow_adds, pow};
use vstd::prelude::*;

use crate::decimal::{Decimal, DecimalView};
use crate::error::{ApiError, ApiErrorView};
use crate::text::chars_of;

verus! {

/// A unit of size. The multipliers are powers of 1000, not of 1024.
#[derive(Debug, Clone, Copy, PartialEq, Eq, Structural)]
pub enum ByteUnit {
    B,
    KB,
    MB,
    GB,
    TB,
}

impl ByteUnit {
    /// The symbol that writes this unit.
    pub open spec fn symbol(self) -> Seq<char> {
        match self {
            ByteUnit::B => seq!['B'],
            ByteUnit::KB => seq!['k', 'B'],
            ByteUnit::MB => seq!['M', 'B'],
            ByteUnit::GB => seq!['G', 'B'],
            ByteUnit::TB => seq!['T', 'B'],
        }
    }

    /// The unit that `s` writes: the match is exact and case-sensitive, and
    /// only the five symbols are units.
    pub open spec fn of_symbol(s: Seq<char>) -> Option<ByteUnit> {
        if s == ByteUnit::B.symbol() {
            Some(ByteUnit::B)
        } else if s == ByteUnit::KB.symbol() {
            Some(ByteUnit::KB)
        } else if s == ByteUnit::MB.symbol() {
            Some(ByteUnit::MB)
        } else if s == ByteUnit::GB.symbol() {
            Some(ByteUnit::GB)
        } else if s == ByteUnit::TB.symbol() {
            Some(ByteUnit::TB)
        } else {
            None
        }
    }

    /// The number of bytes in one of this unit.
    pub open spec fn multiplier(self) -> nat {
        match self {
            ByteUnit::B => 1,
            ByteUnit::KB => 1_000,
            ByteUnit::MB => 1_000_000,
            ByteUnit::GB => 1_000_000_000,
            ByteUnit::TB => 1_000_000_000_000,
        }
    }

    /// The number of decimal places by which this unit moves the point.
    pub open spec fn places(self) -> nat {
        match self {
            ByteUnit::B => 0,
            ByteUnit::KB => 3,
            ByteUnit::MB => 6,
            ByteUnit::GB => 9,
            ByteUnit::TB => 12,
        }
    }

    /// The multiplier of a unit is ten to the power of its places.
    pub proof fn lemma_multiplier(self)
        ensures
            self.multiplier() == pow(10, self.places()),
    {
        lemma_pow0(10);
        lemma_pow1(10);
        lemma_pow_adds(10, 1, 1);
        lemma_pow_adds(10, 2, 1);
        lemma_pow_adds(10, 3, 3);
        lemma_pow_adds(10, 6, 3);
        lemma_pow_adds(10, 9, 3);
        let k = pow(10, 3);
        let m = pow(10, 6);
        let g = pow(10, 9);
        assert(pow(10, 2) == 100);
        assert(k == 1_000);
        assert(m == 1_000_000) by (nonlinear_arith)
            requires
                k == 1_000,
                m == k * k,
        ;
        assert(g == 1_000_000_000) by (nonlinear_arith)
            requires
                k == 1_000,
                m == 1_000_000,
                g == m * k,
        ;
        assert(pow(10, 12) == 1_000_000_000_000) by (nonlinear_arith)
            requires
                k == 1_000,
                g == 1_000_000_000,
                pow(10, 12) == g * k,
        ;
    }

    /// Every unit is found again from its symbol, and only from it.
    pub proof fn lemma_symbols(s: Seq<char>)
        ensures
            forall|u: ByteUnit| ByteUnit::of_symbol(s) == Some(u) <==> s == u.symbol(),
    {
        assert forall|u: ByteUnit| ByteUnit::of_symbol(s) == Some(u) <==> s == u.symbol() by {
            if s == u.symbol() {
                assert(s.len() == u.symbol().len());
                assert(s[0] == u.symbol()[0]);
            }
        }
    }

    /// The unit that the characters `s` write.
    pub fn from_chars(s: &Vec<char>) -> (r: Option<ByteUnit>)
        ensures
            r == ByteUnit::of_symbol(s@),
    {
        if s.len() == 1 && s[0] == 'B' {
            assert(s@ =~= ByteUnit::B.symbol());
            Some(ByteUnit::B)
        } else if s.len() == 2 && s[1] == 'B' {
            let c = s[0];
            if c == 'k' {
                assert(s@ =~= ByteUnit::KB.symbol());
                Some(ByteUnit::KB)
            } else if c == 'M' {
                assert(s@ =~= ByteUnit::MB.symbol());
                Some(ByteUnit::MB)
            } else if c == 'G' {
                assert(s@ =~= ByteUnit::GB.symbol());
                Some(ByteUnit::GB)
            } else if c == 'T' {
                assert(s@ =~= ByteUnit::TB.symbol());
                Some(ByteUnit::TB)
            } else {
                None
            }
        } else {
            None
        }
    }

    /// The unit that `symbol` writes.
    pub fn from_symbol(symbol: &str) -> (r: Option<ByteUnit>)
        ensures
            r == ByteUnit::of_symbol(symbol@),
    {
        let chars = chars_of(symbol);
        ByteUnit::from_chars(&chars)
    }

    /// The number of decimal places by which this unit moves the point.
    pub fn decimal_places(self) -> (r: usize)
        ensures
            r == self.places(),
    {
        match self {
            ByteUnit::B => 0,
            ByteUnit::KB => 3,
            ByteUnit::MB => 6,
            ByteUnit::GB => 9,
            ByteUnit::TB => 12,
        }
    }

    /// `value` of this unit, in bytes: the product with the multiplier,
    /// exactly.
    pub fn to_bytes(self, value: Decimal) -> (r: Decimal)
        ensures
            r@ == value@.shifted(self.places()),
            r@.wf(),
            is_product(r@, value@, self.multiplier()),
    {
        proof {
            self.lemma_multiplier();
        }
        value.times_pow10(self.decimal_places())
    }
}

/// Whether `r` is `v` times the natural number `factor`: the sign is that of
/// `v`, and the fractions `r.magnitude() / 10^r.scale` and
/// `v.magnitude() * factor / 10^v.scale` are equal.
pub open spec fn is_product(r: DecimalView, v: DecimalView, factor: nat) -> bool {
    &&& r.negative == v.negative
    &&& r.magnitude() * pow(10, v.scale) == v.magnitude() * factor * pow(10, r.scale)
}

/// What [`convert_to_bytes`] returns for a magnitude and a unit symbol.
pub open spec fn conversion(value: DecimalView, unit: Seq<char>) -> Result<
    DecimalView,
    ApiErrorView,
> {
    match ByteUnit::of_symbol(unit) {
        Some(u) => Ok(value.shifted(u.places())),
        None => Err(ApiErrorView::UnrecognizedUnit { unit }),
    }
}

/// The view of the outcome of a conversion or of a parser.
pub open spec fn outcome(r: Result<Decimal, ApiError>) -> Result<DecimalView, ApiErrorView> {
    match r {
        Ok(d) => Ok(d@),
        Err(e) => Err(e@),
    }
}

/// Converts `value` of the unit written by `unit` into bytes. It fails, with
/// the offending symbol, exactly where `unit` is none of the five symbols;
/// else the result is `value` times the unit's multiplier, exactly.
pub fn convert_to_bytes(value: Decimal, unit: String) -> (r: Result<Decimal, ApiError>)
    ensures
        outcome(r) == conversion(value@, unit@),
        r matches Ok(d) ==> d@.wf() && is_product(
            d@,
            value@,
            ByteUnit::of_symbol(unit@).unwrap().multiplier(),
        ),
{
    match ByteUnit::from_symbol(unit.as_str()) {
        Some(u) => Ok(u.to_bytes(value)),
        None => Err(ApiError::UnrecognizedUnit { unit }),
    }
}

} // verus!
