//! Wrappers around the `bigdecimal` crate.
//!
//! A `BigDecimal` is opaque to the verifier; `bd_rep` names the mantissa
//! and scale that such a value carries.  Every call into the outside crate
//! stands in a wrapper here whose contract states, over the model of
//! `crate::model`, exactly what the called code computes; the rest of the
//! library is verified against those contracts.

use vstd::prelude::*;

use crate::model::{
    dec_add, dec_div, dec_mul, dec_sub, in_bounds, lit_ok, lit_rep, lit_shaped, render, DecRep,
};
use std::str::FromStr;

verus! {

#[verifier::external_type_specification]
#[verifier::external_body]
pub struct ExBigDecimal(bigdecimal::BigDecimal);

/// The representation a `BigDecimal` carries: its mantissa (the carried
/// big integer) and its scale, as `value = mant * 10^(-scale)`.
pub uninterp spec fn bd_rep(b: &bigdecimal::BigDecimal) -> DecRep;

/// Relies on `BigDecimal::clone`: the copy carries the same mantissa and
/// scale.
pub assume_specification[ <bigdecimal::BigDecimal as Clone>::clone ](
    b: &bigdecimal::BigDecimal,
) -> (r: bigdecimal::BigDecimal)
    ensures
        bd_rep(&r) == bd_rep(b),
;

/// Relies on `str::chars`: the characters of the string, in order.
#[verifier::external_body]
pub(crate) fn str_chars(s: &str) -> (v: Vec<char>)
    ensures
        v@ == s@,
{
    s.chars().collect()
}

/// Relies on `BigDecimal::from_str`: a plain literal (optional sign, then
/// digits and dots) parses exactly when it holds at least one digit and at
/// most one dot; the mantissa is the fold of the digits, the scale the
/// number of digits after the dot.  On failure the buffered text is handed
/// back.
#[verifier::external_body]
pub(crate) fn dec_from_chars(cache: &Vec<char>) -> (r: Result<bigdecimal::BigDecimal, String>)
    requires
        cache@.len() >= 1,
        lit_shaped(cache@),
        cache@.len() <= crate::model::scale_bound(),
    ensures
        r is Ok <==> lit_ok(cache@),
        (r matches Ok(d) ==> bd_rep(&d) == lit_rep(cache@)),
        (r matches Err(s) ==> s@ == cache@),
{
    let s: String = cache.iter().collect();
    match bigdecimal::BigDecimal::from_str(&s) {
        Ok(b) => Ok(b),
        Err(_) => Err(s),
    }
}

/// Relies on `&BigDecimal + &BigDecimal`: mantissas aligned to the larger
/// scale and added; a zero operand hands the other back with its scale
/// extended by at most fifteen digits.  The bounds keep the scale
/// arithmetic inside the outside crate within `i64`.
#[verifier::external_body]
pub(crate) fn dec_add_w(a: &bigdecimal::BigDecimal, b: &bigdecimal::BigDecimal) -> (r:
    bigdecimal::BigDecimal)
    requires
        in_bounds(bd_rep(a)),
        in_bounds(bd_rep(b)),
    ensures
        bd_rep(&r) == dec_add(bd_rep(a), bd_rep(b)),
{
    a + b
}

/// Relies on `&BigDecimal - &BigDecimal`: mantissas aligned to the larger
/// scale and subtracted.
#[verifier::external_body]
pub(crate) fn dec_sub_w(a: &bigdecimal::BigDecimal, b: &bigdecimal::BigDecimal) -> (r:
    bigdecimal::BigDecimal)
    requires
        in_bounds(bd_rep(a)),
        in_bounds(bd_rep(b)),
    ensures
        bd_rep(&r) == dec_sub(bd_rep(a), bd_rep(b)),
{
    a - b
}

/// Relies on `&BigDecimal * &BigDecimal`: mantissas multiply and scales
/// add, except that an operand recognized as one hands the other operand
/// back in normal form.
#[verifier::external_body]
pub(crate) fn dec_mul_w(a: &bigdecimal::BigDecimal, b: &bigdecimal::BigDecimal) -> (r:
    bigdecimal::BigDecimal)
    requires
        in_bounds(bd_rep(a)),
        in_bounds(bd_rep(b)),
    ensures
        bd_rep(&r) == dec_mul(bd_rep(a), bd_rep(b)),
{
    a * b
}

/// Relies on `&BigDecimal / &BigDecimal`: long division of the mantissas
/// to one hundred significant digits, rounded half-up, at scale
/// `a.scale - b.scale`.  A zero divisor panics in the outside crate and is
/// ruled out here.
#[verifier::external_body]
pub(crate) fn dec_div_w(a: &bigdecimal::BigDecimal, b: &bigdecimal::BigDecimal) -> (r:
    bigdecimal::BigDecimal)
    requires
        in_bounds(bd_rep(a)),
        in_bounds(bd_rep(b)),
        bd_rep(b).mant != 0,
    ensures
        bd_rep(&r) == dec_div(bd_rep(a), bd_rep(b)),
{
    a / b
}

/// Relies on `BigDecimal / i32`: for a divisor other than `0`, `1`, `-1`,
/// `2` and `-2` the divisor is lifted to a decimal of scale zero and the
/// general division runs.  A zero divisor panics in the outside crate and
/// is ruled out here.
#[verifier::external_body]
pub(crate) fn dec_div_i32(a: &bigdecimal::BigDecimal, n: i32) -> (r: bigdecimal::BigDecimal)
    requires
        in_bounds(bd_rep(a)),
        n != 0,
    ensures
        (n != 1 && n != -1 && n != 2 && n != -2) ==> bd_rep(&r) == dec_div(
            bd_rep(a),
            DecRep { mant: n as int, scale: 0 },
        ),
{
    a.clone() / n
}

/// Relies on `BigDecimal`'s `Display` (through `to_string`): the value
/// written out in full within thresholds, in scientific or dotless
/// exponent notation outside them, as `crate::model::render` states.
#[verifier::external_body]
pub(crate) fn dec_render(d: &bigdecimal::BigDecimal) -> (r: String)
    ensures
        r@ == render(bd_rep(d)),
{
    d.to_string()
}

} // verus!
