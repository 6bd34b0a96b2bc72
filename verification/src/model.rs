//! Mathematical model of an arbitrary-precision decimal.
//!
//! A decimal value is a pair of a mantissa and a scale: the value denoted is
//! `mant * 10^(-scale)`.  The spec functions in this module say exactly what
//! each operation of the underlying decimal arithmetic returns in terms of
//! that pair: parsing a literal, addition, subtraction, multiplication,
//! division (long division to 100 significant digits, rounded half-up), and
//! rendering to a string.

use vstd::prelude::*;

verus! {

/// Representation of a decimal value: `mant * 10^(-scale)`.
pub ghost struct DecRep {
    pub mant: int,
    pub scale: int,
}

/// Absolute value.
pub open spec fn iabs(x: int) -> int {
    if x < 0 {
        -x
    } else {
        x
    }
}

/// The greater of two integers.
pub open spec fn imax(a: int, b: int) -> int {
    if a < b {
        b
    } else {
        a
    }
}

/// `10^n`.
pub open spec fn pow10(n: nat) -> int
    decreases n,
{
    if n == 0 {
        1
    } else {
        10 * pow10((n - 1) as nat)
    }
}

/// Number of decimal digits of a nonnegative integer (one digit for zero).
pub open spec fn n_digits(m: int) -> nat
    recommends
        m >= 0,
    decreases m,
{
    if m < 10 {
        1
    } else {
        1 + n_digits(m / 10)
    }
}

/// Bound on the scale of a decimal handed to an arithmetic operation: far
/// above anything reachable, yet small enough that the scale arithmetic
/// inside the decimal library stays within `i64`.
pub open spec fn scale_bound() -> int {
    0x1000_0000_0000_0000
}

/// Bound on the number of mantissa digits of a decimal handed to an
/// arithmetic operation, with the same purpose as [`scale_bound`].
pub open spec fn digit_bound() -> nat {
    0x1000_0000_0000_0000
}

/// The decimals that the arithmetic operations accept: mantissa and scale
/// so far within machine limits that no internal counter can overflow.
pub open spec fn in_bounds(d: DecRep) -> bool {
    &&& iabs(d.mant) < pow10(digit_bound())
    &&& iabs(d.scale) <= scale_bound()
}

/// Whether this representation is recognized as the value one by the
/// decimal library's quick check: a mantissa of exactly `10^scale` with
/// `0 <= scale <= 38`.  (Representations of one with a larger scale are
/// not recognized and take the general path of `*` and `/`.)
pub open spec fn dec_is_one(a: DecRep) -> bool {
    &&& 0 <= a.scale <= 38
    &&& a.mant == pow10(a.scale as nat)
}

/// Negation: the mantissa flips sign, the scale is kept.
pub open spec fn dec_neg(a: DecRep) -> DecRep {
    DecRep { mant: -a.mant, scale: a.scale }
}

/// Extend a representation by `diff >= 0` digits of scale, keeping the value.
pub open spec fn dec_extend(a: DecRep, diff: int) -> DecRep
    recommends
        diff >= 0,
{
    DecRep { mant: a.mant * pow10(diff as nat), scale: a.scale + diff }
}

/// Clamp a scale difference into `[0, 15]`, as the addition of a zero does.
pub open spec fn clamp15(d: int) -> int {
    if d < 0 {
        0
    } else if d > 15 {
        15
    } else {
        d
    }
}

/// Addition.  A zero operand hands the other operand back with its scale
/// extended toward the zero's scale by at most 15; otherwise the mantissas
/// are aligned to the larger scale and added.
pub open spec fn dec_add(a: DecRep, b: DecRep) -> DecRep {
    if b.mant == 0 {
        dec_extend(a, clamp15(b.scale - a.scale))
    } else if a.mant == 0 {
        dec_extend(b, clamp15(a.scale - b.scale))
    } else {
        let s = imax(a.scale, b.scale);
        DecRep {
            mant: a.mant * pow10((s - a.scale) as nat) + b.mant * pow10((s - b.scale) as nat),
            scale: s,
        }
    }
}

/// Subtraction: mantissas aligned to the larger scale and subtracted.
pub open spec fn dec_sub(a: DecRep, b: DecRep) -> DecRep {
    let s = imax(a.scale, b.scale);
    DecRep {
        mant: a.mant * pow10((s - a.scale) as nat) - b.mant * pow10((s - b.scale) as nat),
        scale: s,
    }
}

/// Strip factors of ten out of the mantissa into the scale.
pub open spec fn dec_strip(a: DecRep) -> DecRep
    recommends
        a.mant != 0,
    decreases iabs(a.mant),
{
    if a.mant != 0 && a.mant % 10 == 0 {
        dec_strip(DecRep { mant: a.mant / 10, scale: a.scale - 1 })
    } else {
        a
    }
}

/// The normal form of a representation: zero becomes `(0, 0)`, any other
/// value has its trailing zero digits moved out of the mantissa.
pub open spec fn dec_norm(a: DecRep) -> DecRep {
    if a.mant == 0 {
        DecRep { mant: 0, scale: 0 }
    } else {
        dec_strip(a)
    }
}

/// Multiplication.  An operand recognized as one hands back the other
/// operand in normal form; otherwise mantissas multiply and scales add.
pub open spec fn dec_mul(a: DecRep, b: DecRep) -> DecRep {
    if dec_is_one(a) {
        dec_norm(b)
    } else if dec_is_one(b) {
        dec_norm(a)
    } else {
        DecRep { mant: a.mant * b.mant, scale: a.scale + b.scale }
    }
}

/// The least `k` with `num * 10^k >= den`, for `1 <= num` and `1 <= den`.
pub open spec fn shift_k(num: int, den: int) -> nat
    recommends
        num >= 1,
        den >= 1,
    decreases (if den - num >= 0 {
        den - num
    } else {
        0
    }),
{
    if num >= den || num <= 0 {
        0
    } else {
        1 + shift_k(num * 10, den)
    }
}

/// The digit-by-digit phase of long division: `q` digits produced so far,
/// `r` the pending remainder (already shifted by ten), `prec` the number of
/// digits of `q`.  Digits are produced until the remainder is gone or 100
/// digits stand, then the last digit decides rounding half-up.
pub open spec fn div_loop(q: int, r: int, den: int, scale: int, prec: nat) -> DecRep
    recommends
        den >= 1,
        r >= 0,
    decreases 100 - prec,
{
    if r == 0 {
        DecRep { mant: q, scale }
    } else if prec >= 100 {
        DecRep {
            mant: q + (
            if r / den >= 5 {
                1int
            } else {
                0int
            }),
            scale,
        }
    } else {
        div_loop(q * 10 + r / den, (r % den) * 10, den, scale + 1, (prec + 1) as nat)
    }
}

/// Long division of positive integers `num / den`, starting at the given
/// scale: the numerator is first shifted up to the denominator, then digits
/// are produced one by one.
pub open spec fn div_pos(num: int, den: int, scale0: int) -> DecRep
    recommends
        num >= 1,
        den >= 1,
{
    let k = shift_k(num, den);
    let num2 = num * pow10(k);
    let scale = scale0 + k;
    let q = num2 / den;
    let r = num2 % den;
    if r == 0 {
        DecRep { mant: q, scale }
    } else {
        div_loop(q, r * 10, den, scale, n_digits(q))
    }
}

/// Signed long division: signs are stripped, the magnitudes divided, and
/// the sign restored on the result.
pub open spec fn dec_impl_division(num: int, den: int, scale: int) -> DecRep
    recommends
        num != 0,
        den != 0,
{
    if num < 0 && den < 0 {
        div_pos(-num, -den, scale)
    } else if num < 0 {
        dec_neg(div_pos(-num, den, scale))
    } else if den < 0 {
        dec_neg(div_pos(num, -den, scale))
    } else {
        div_pos(num, den, scale)
    }
}

/// Division.  A zero numerator or a denominator recognized as one hands the
/// numerator back; equal mantissas give one directly; otherwise the
/// mantissas go through long division at scale `a.scale - b.scale`.
pub open spec fn dec_div(a: DecRep, b: DecRep) -> DecRep
    recommends
        b.mant != 0,
{
    if a.mant == 0 || dec_is_one(b) {
        a
    } else if a.mant == b.mant {
        DecRep { mant: 1, scale: a.scale - b.scale }
    } else {
        dec_impl_division(a.mant, b.mant, a.scale - b.scale)
    }
}

// ---------------------------------------------------------------------------
// Decimal literals.
/// A decimal digit.
pub open spec fn is_digit(c: char) -> bool {
    '0' <= c && c <= '9'
}

/// The value of a decimal digit.
pub open spec fn digit_val(c: char) -> int {
    c as int - '0' as int
}

/// A character that may stand in the body of a buffered literal.
pub open spec fn is_lit_char(c: char) -> bool {
    is_digit(c) || c == '.'
}

/// The shape that the tokenizer's buffer always has: an optional sign,
/// then digits and dots only.
pub open spec fn lit_shaped(s: Seq<char>) -> bool {
    &&& forall|i: int| 1 <= i < s.len() ==> is_lit_char(#[trigger] s[i])
    &&& s.len() > 0 ==> (is_lit_char(s[0]) || s[0] == '+' || s[0] == '-')
}

/// The literal without its optional sign.
pub open spec fn lit_body(s: Seq<char>) -> Seq<char> {
    if s.len() > 0 && (s[0] == '+' || s[0] == '-') {
        s.drop_first()
    } else {
        s
    }
}

/// The sign of the literal.
pub open spec fn lit_sign(s: Seq<char>) -> int {
    if s.len() > 0 && s[0] == '-' {
        -1
    } else {
        1
    }
}

/// How many decimal digits a sequence holds.
pub open spec fn count_digits(s: Seq<char>) -> nat
    decreases s.len(),
{
    if s.len() == 0 {
        0
    } else {
        count_digits(s.drop_last()) + (
        if is_digit(s.last()) {
            1nat
        } else {
            0nat
        })
    }
}

/// How many dots a sequence holds.
pub open spec fn count_dots(s: Seq<char>) -> nat
    decreases s.len(),
{
    if s.len() == 0 {
        0
    } else {
        count_dots(s.drop_last()) + (
        if s.last() == '.' {
            1nat
        } else {
            0nat
        })
    }
}

/// Whether a buffered literal parses: at least one digit and at most one dot.
pub open spec fn lit_ok(s: Seq<char>) -> bool {
    &&& count_digits(lit_body(s)) >= 1
    &&& count_dots(lit_body(s)) <= 1
}

/// The unsigned mantissa of a literal body: its digits folded left to
/// right, dots skipped.
pub open spec fn lit_mant(s: Seq<char>) -> int
    decreases s.len(),
{
    if s.len() == 0 {
        0
    } else if s.last() == '.' {
        lit_mant(s.drop_last())
    } else {
        10 * lit_mant(s.drop_last()) + digit_val(s.last())
    }
}

/// The index of the first dot, or `-1` if there is none.
pub open spec fn first_dot(s: Seq<char>) -> int
    decreases s.len(),
{
    if s.len() == 0 {
        -1
    } else if s[0] == '.' {
        0
    } else {
        let r = first_dot(s.drop_first());
        if r < 0 {
            -1
        } else {
            r + 1
        }
    }
}

/// The scale of a literal body: the number of characters after the first
/// dot, or zero when there is no dot or the dot stands last.
pub open spec fn lit_scale(s: Seq<char>) -> int {
    let d = first_dot(s);
    if d < 0 || d == s.len() - 1 {
        0
    } else {
        s.len() - 1 - d
    }
}

/// The representation that parsing a buffered literal produces.
pub open spec fn lit_rep(s: Seq<char>) -> DecRep {
    DecRep {
        mant: lit_sign(s) * lit_mant(lit_body(s)),
        scale: lit_scale(lit_body(s)),
    }
}

// ---------------------------------------------------------------------------
// Rendering.
/// The character of a decimal digit value.
pub open spec fn digit_char(d: int) -> char
    recommends
        0 <= d <= 9,
{
    (('0' as int) + d) as char
}

/// The decimal digits of a nonnegative integer, most significant first.
pub open spec fn dec_digits(m: int) -> Seq<char>
    recommends
        m >= 0,
    decreases m,
{
    if m < 10 {
        seq![digit_char(m)]
    } else {
        dec_digits(m / 10).push(digit_char(m % 10))
    }
}

/// A run of `n` zero characters.
pub open spec fn zeros(n: int) -> Seq<char>
    recommends
        n >= 0,
{
    Seq::new(n as nat, |i: int| '0')
}

/// An exponent written with an explicit sign, as the renderer writes it.
pub open spec fn signed_exp(e: int) -> Seq<char> {
    if e >= 0 {
        seq!['+'] + dec_digits(e)
    } else {
        seq!['-'] + dec_digits(-e)
    }
}

/// What the decimal library's `to_string` returns on a representation.
///
/// Within thresholds the value is written out in full: trailing zeros for a
/// non-positive scale, a dot inserted into or zeros prefixed to the digit
/// run for a positive one.  More than five zeros between the point and the
/// first digit switch to scientific notation (`1E-7`); more than fifteen
/// zeros before the point switch to dotless exponent form (`2e+18`).
pub open spec fn render(d: DecRep) -> Seq<char> {
    let digits = dec_digits(iabs(d.mant));
    let n = digits.len() as int;
    let sc = if d.mant == 0 {
        0
    } else {
        d.scale
    };
    let lzc = if sc >= n {
        sc - n
    } else {
        0
    };
    let tz = if sc < 0 {
        -sc
    } else {
        0
    };
    let core = if lzc > 5 {
        (if n > 1 {
            digits.take(1) + seq!['.'] + digits.skip(1)
        } else {
            digits
        }) + seq!['E'] + signed_exp(n - sc - 1)
    } else if tz > 15 {
        digits + seq!['e'] + signed_exp(-sc)
    } else if sc <= 0 {
        digits + zeros(-sc)
    } else if sc < n {
        digits.take(n - sc) + seq!['.'] + digits.skip(n - sc)
    } else {
        seq!['0', '.'] + zeros(sc - n) + digits
    };
    if d.mant < 0 {
        seq!['-'] + core
    } else {
        core
    }
}

} // verus!
