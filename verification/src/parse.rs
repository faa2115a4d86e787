//! Parsers of the runtime's human-readable texts: percentages, sizes with a
//! unit, and pairs of sizes.

use vstd::prelude::*;

use crate::convert_to_bytes::{conversion, convert_to_bytes, outcome, ByteUnit};
use crate::decimal::{
    is_literal, lemma_literal_is_not_empty, lemma_literal_wf, lemma_shifted_value, literal_value,
    Decimal, DecimalView,
};
use crate::error::{parse_failure, ApiError, ApiErrorView};
use crate::text::{alphabetic, chars_of, is_alphabetic, slice_of, string_of};

verus! {

/// What a percentage text is worth: the number before its single trailing
/// `%`, not rescaled. A text without a trailing `%`, or whose rest is no
/// decimal literal, is a failure that carries the text.
pub open spec fn percent_value(s: Seq<char>) -> Result<DecimalView, ApiErrorView> {
    if s.len() > 0 && s.last() == '%' && is_literal(s.drop_last()) {
        Ok(literal_value(s.drop_last()))
    } else {
        Err(parse_failure(s))
    }
}

/// Reads a percentage such as `12.3%`. Exactly one trailing `%` is removed,
/// and the rest is read as a decimal literal.
pub fn parse_percent(text: &str) -> (r: Result<Decimal, ApiError>)
    ensures
        outcome(r) == percent_value(text@),
        r matches Ok(d) ==> d@.wf(),
{
    let chars = chars_of(text);
    let n = chars.len();
    if n == 0 || chars[n - 1] != '%' {
        return Err(ApiError::parse(text));
    }
    let magnitude = slice_of(&chars, 0, n - 1);
    assert(magnitude@ =~= text@.drop_last());
    match Decimal::from_chars(&magnitude) {
        Some(value) => Ok(value),
        None => Err(ApiError::parse(text)),
    }
}

/// The length of the longest run of alphabetic characters at the end of `s`.
pub open spec fn unit_len(s: Seq<char>) -> nat
    decreases s.len(),
{
    if s.len() > 0 && alphabetic(s.last()) {
        1 + unit_len(s.drop_last())
    } else {
        0
    }
}

/// The unit suffix of a size text: its longest trailing run of alphabetic
/// characters.
pub open spec fn unit_text(s: Seq<char>) -> Seq<char> {
    s.skip(s.len() - unit_len(s))
}

/// The magnitude of a size text: what stands before its unit suffix.
pub open spec fn magnitude_text(s: Seq<char>) -> Seq<char> {
    s.take(s.len() - unit_len(s))
}

/// What the size text `text` is worth, in bytes, once it is split into
/// `magnitude` and `unit`. Without a unit, or with a magnitude that is no
/// decimal literal, it is a failure that carries the text; a unit that is
/// none of the five symbols is a failure that carries the unit.
pub open spec fn size_of_parts(text: Seq<char>, magnitude: Seq<char>, unit: Seq<char>) -> Result<
    DecimalView,
    ApiErrorView,
> {
    if unit.len() == 0 || !is_literal(magnitude) {
        Err(parse_failure(text))
    } else {
        conversion(literal_value(magnitude), unit)
    }
}

/// What a size text is worth, in bytes: it is split where its unit suffix
/// starts.
pub open spec fn size_value(s: Seq<char>) -> Result<DecimalView, ApiErrorView> {
    size_of_parts(s, magnitude_text(s), unit_text(s))
}

/// The unit suffix starts where the alphabetic characters at the end start.
pub proof fn lemma_unit_len(s: Seq<char>, k: int)
    requires
        0 <= k <= s.len(),
        forall|i: int| k <= i < s.len() ==> alphabetic(#[trigger] s[i]),
        k > 0 ==> !alphabetic(s[k - 1]),
    ensures
        unit_len(s) == s.len() - k,
    decreases s.len() - k,
{
    if k < s.len() {
        lemma_unit_len(s.drop_last(), k);
    }
}

/// The unit suffix is never longer than the text.
pub proof fn lemma_unit_len_bound(s: Seq<char>)
    ensures
        unit_len(s) <= s.len(),
    decreases s.len(),
{
    if s.len() > 0 && alphabetic(s.last()) {
        lemma_unit_len_bound(s.drop_last());
    }
}

/// A decimal literal followed by the symbol of a unit is worth the literal's
/// number times the unit's multiplier, where the letters of the symbol are
/// alphabetic and the last character of the literal, a digit or a point, is
/// not.
pub proof fn lemma_size_of_literal_and_unit(magnitude: Seq<char>, unit: ByteUnit)
    requires
        is_literal(magnitude),
        !alphabetic(magnitude.last()),
        forall|i: int| 0 <= i < unit.symbol().len() ==> alphabetic(#[trigger] unit.symbol()[i]),
    ensures
        size_value(magnitude + unit.symbol()) == Ok::<DecimalView, ApiErrorView>(
            literal_value(magnitude).shifted(unit.places()),
        ),
{
    let text = magnitude + unit.symbol();
    let k = magnitude.len() as int;
    lemma_literal_is_not_empty(magnitude);
    assert forall|i: int| k <= i < text.len() implies alphabetic(#[trigger] text[i]) by {
        assert(text[i] == unit.symbol()[i - k]);
    }
    assert(text[k - 1] == magnitude.last());
    lemma_unit_len(text, k);
    assert(magnitude_text(text) =~= magnitude);
    assert(unit_text(text) =~= unit.symbol());
    ByteUnit::lemma_symbols(unit.symbol());
}

/// The index at which the unit suffix of `s` starts: the length of `s`
/// where it has none.
pub fn unit_start(s: &Vec<char>) -> (k: usize)
    ensures
        k == s@.len() - unit_len(s@),
{
    let n = s.len();
    let mut k: usize = n;
    while k > 0 && is_alphabetic(s[k - 1])
        invariant
            k <= n,
            n == s.len(),
            forall|i: int| k <= i < n ==> alphabetic(#[trigger] s@[i]),
        decreases k,
    {
        k -= 1;
    }
    proof {
        lemma_unit_len(s@, k as int);
    }
    k
}

/// The size `text` in bytes, from the `magnitude` and the `unit` that it
/// was split into.
pub fn size_from_parts(text: &str, magnitude: &Vec<char>, unit: String) -> (r: Result<
    Decimal,
    ApiError,
>)
    ensures
        outcome(r) == size_of_parts(text@, magnitude@, unit@),
        r matches Ok(d) ==> d@.wf(),
{
    if unit.as_str().is_empty() {
        return Err(ApiError::parse(text));
    }
    match Decimal::from_chars(magnitude) {
        Some(value) => convert_to_bytes(value, unit),
        None => Err(ApiError::parse(text)),
    }
}

/// Reads a size such as `1.2MB` and returns it in bytes. The unit is the
/// longest trailing run of alphabetic characters, of any length from one on;
/// what stands before it is read as a decimal literal.
pub fn parse_io_str(text: String) -> (r: Result<Decimal, ApiError>)
    ensures
        outcome(r) == size_value(text@),
        r matches Ok(d) ==> d@.wf(),
{
    let chars = chars_of(text.as_str());
    let k = unit_start(&chars);
    proof {
        lemma_unit_len_bound(chars@);
    }
    let magnitude = slice_of(&chars, 0, k);
    let unit = string_of(&chars, k, chars.len());
    assert(magnitude@ =~= magnitude_text(text@));
    assert(unit@ =~= unit_text(text@));
    size_from_parts(text.as_str(), &magnitude, unit)
}

/// Whether the separator of a pair of sizes, a slash between two spaces,
/// stands in `s` at index `i`.
pub open spec fn separator_at(s: Seq<char>, i: int) -> bool {
    &&& 0 <= i
    &&& i + 3 <= s.len()
    &&& s[i] == ' '
    &&& s[i + 1] == '/'
    &&& s[i + 2] == ' '
}

/// Whether the separator stands anywhere in `s`.
pub open spec fn has_separator(s: Seq<char>) -> bool {
    exists|i: int| separator_at(s, i)
}

/// Whether the first separator of `s` stands at index `p`.
pub open spec fn is_first_separator(s: Seq<char>, p: int) -> bool {
    &&& separator_at(s, p)
    &&& forall|j: int| 0 <= j < p ==> !separator_at(s, j)
}

/// The index of the first separator of `s`, where it has one.
pub open spec fn first_separator(s: Seq<char>) -> int {
    choose|p: int| is_first_separator(s, p)
}

/// The two segments of a pair of sizes, the left one first: what stands
/// before and after the first separator, where both are non-empty and no
/// further separator follows.
pub open spec fn net_io_segments(s: Seq<char>) -> Option<(Seq<char>, Seq<char>)> {
    if !has_separator(s) {
        None
    } else {
        let p = first_separator(s);
        let left = s.take(p);
        let right = s.skip(p + 3);
        if left.len() > 0 && right.len() > 0 && !has_separator(right) {
            Some((left, right))
        } else {
            None
        }
    }
}

/// What a pair of sizes is worth, as `(inbound, outbound)`: the left segment
/// is the outbound traffic and the right one the inbound. A text that does
/// not split into exactly two non-empty segments is a failure that carries
/// the text. The left segment is read first, and the failure of a segment is
/// the failure of the pair.
pub open spec fn net_io_value(s: Seq<char>) -> Result<(DecimalView, DecimalView), ApiErrorView> {
    match net_io_segments(s) {
        None => Err(parse_failure(s)),
        Some((left, right)) => match size_value(left) {
            Err(e) => Err(e),
            Ok(outbound) => match size_value(right) {
                Err(e) => Err(e),
                Ok(inbound) => Ok((inbound, outbound)),
            },
        },
    }
}

/// The view of the outcome of the parser of pairs.
pub open spec fn pair_outcome(r: Result<(Decimal, Decimal), ApiError>) -> Result<
    (DecimalView, DecimalView),
    ApiErrorView,
> {
    match r {
        Ok((a, b)) => Ok((a@, b@)),
        Err(e) => Err(e@),
    }
}

/// A text has one first separator only.
pub proof fn lemma_first_separator(s: Seq<char>, p: int)
    requires
        is_first_separator(s, p),
    ensures
        has_separator(s),
        first_separator(s) == p,
{
    let q = first_separator(s);
    assert(is_first_separator(s, q));
    if q < p {
        assert(!separator_at(s, q));
    }
    if p < q {
        assert(!separator_at(s, p));
    }
}

/// The index of the first separator of `s` at or after `from`.
fn find_separator(s: &Vec<char>, from: usize) -> (r: Option<usize>)
    requires
        from <= s.len(),
    ensures
        match r {
            Some(p) => from <= p && separator_at(s@, p as int) && forall|j: int|
                from <= j < p ==> !separator_at(s@, j),
            None => forall|j: int| from <= j ==> !separator_at(s@, j),
        },
{
    let n = s.len();
    let mut i: usize = from;
    while i < n && n - i >= 3
        invariant
            from <= i <= n,
            n == s.len(),
            forall|j: int| from <= j < i ==> !separator_at(s@, j),
        decreases n - i,
    {
        if s[i] == ' ' && s[i + 1] == '/' && s[i + 2] == ' ' {
            return Some(i);
        }
        i += 1;
    }
    None
}

/// The numbers that the parsers give hold decimal digits.
pub proof fn lemma_values_wf(s: Seq<char>)
    ensures
        percent_value(s) matches Ok(v) ==> v.wf(),
        size_value(s) matches Ok(v) ==> v.wf(),
        net_io_value(s) matches Ok((inbound, outbound)) ==> inbound.wf() && outbound.wf(),
{
    if percent_value(s) is Ok {
        lemma_literal_wf(s.drop_last());
    }
    lemma_size_wf(s);
    if let Some((left, right)) = net_io_segments(s) {
        lemma_size_wf(left);
        lemma_size_wf(right);
    }
}

/// The size that a size text is worth holds decimal digits.
pub proof fn lemma_size_wf(s: Seq<char>)
    ensures
        size_value(s) matches Ok(v) ==> v.wf(),
{
    if let Ok(v) = size_value(s) {
        let m = literal_value(magnitude_text(s));
        lemma_literal_wf(magnitude_text(s));
        let u = ByteUnit::of_symbol(unit_text(s))->Some_0;
        lemma_shifted_value(m, u.places());
    }
}

/// The view of a pair of segments.
pub open spec fn segments_view(r: Option<(String, String)>) -> Option<(Seq<char>, Seq<char>)> {
    match r {
        Some((left, right)) => Some((left@, right@)),
        None => None,
    }
}

/// Splits a pair of sizes at its separator into the left and the right
/// segment: `None` where the text does not split into exactly two non-empty
/// segments.
pub fn split_netio(netio_string: &str) -> (r: Option<(String, String)>)
    ensures
        segments_view(r) == net_io_segments(netio_string@),
{
    let chars = chars_of(netio_string);
    let n = chars.len();
    let ghost s = netio_string@;
    let p = match find_separator(&chars, 0) {
        Some(p) => p,
        None => {
            return None;
        },
    };
    proof {
        lemma_first_separator(s, p as int);
    }
    if p == 0 || p + 3 == n {
        return None;
    }
    let ghost right_text = s.skip(p + 3);
    let again = find_separator(&chars, p + 3);
    proof {
        assert forall|i: int| 0 <= i implies separator_at(right_text, i) == separator_at(
            s,
            i + p + 3,
        ) by {
            if i + 3 <= right_text.len() {
                assert(right_text[i] == s[i + p + 3]);
                assert(right_text[i + 1] == s[i + p + 3 + 1]);
                assert(right_text[i + 2] == s[i + p + 3 + 2]);
            }
        }
        if let Some(q) = again {
            assert(separator_at(right_text, q - p - 3));
        }
    }
    if again.is_some() {
        return None;
    }
    let left = string_of(&chars, 0, p);
    let right = string_of(&chars, p + 3, n);
    assert(left@ =~= s.take(p as int));
    assert(right@ =~= right_text);
    Some((left, right))
}

/// Reads a pair of sizes such as `650B / 1.5kB` and returns
/// `(inbound, outbound)` in bytes: the left segment is the outbound traffic,
/// the right one the inbound.
pub fn parse_netio_str(netio_string: &str) -> (r: Result<(Decimal, Decimal), ApiError>)
    ensures
        pair_outcome(r) == net_io_value(netio_string@),
        r matches Ok((a, b)) ==> a@.wf() && b@.wf(),
{
    let (left, right) = match split_netio(netio_string) {
        Some(segments) => segments,
        None => {
            return Err(ApiError::parse(netio_string));
        },
    };
    let outbound = match parse_io_str(left) {
        Ok(v) => v,
        Err(e) => {
            return Err(e);
        },
    };
    let inbound = match parse_io_str(right) {
        Ok(v) => v,
        Err(e) => {
            return Err(e);
        },
    };
    Ok((inbound, outbound))
}

} // verus!
