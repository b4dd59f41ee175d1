//! Double-precision numbers for the evaluator.
//!
//! The language's numbers are IEEE-754 binary64 values.  The library holds
//! such a number as its 64-bit pattern (a plain `u64`), and the arithmetic on
//! those patterns is done by `rustc_apfloat`'s software implementation of the
//! same format, rounding to nearest, ties to even — the default rounding of
//! the hardware operations.  Each operation's result is a function of its
//! argument bits alone, so each is given a name here; the wrappers promise
//! that they return the named result, and everything built on top is verified
//! against those names.

use rustc_apfloat::Float;
use rustc_apfloat::ieee::Double;
use vstd::prelude::*;

verus! {

/// The bit pattern of the IEEE-754 binary64 sum of the two numbers with bit
/// patterns `a` and `b` (round to nearest, ties to even).
pub uninterp spec fn dbl_add(a: u64, b: u64) -> u64;

/// The bit pattern of the binary64 difference `a - b`.
pub uninterp spec fn dbl_sub(a: u64, b: u64) -> u64;

/// The bit pattern of the binary64 product `a * b`.
pub uninterp spec fn dbl_mul(a: u64, b: u64) -> u64;

/// The bit pattern of the binary64 quotient `a / b` (division by zero gives
/// an infinity or NaN, as IEEE-754 prescribes; it is not an error).
pub uninterp spec fn dbl_div(a: u64, b: u64) -> u64;

/// The bit pattern of the binary64 negation of `a`: an exact sign-bit
/// flip, every other bit (a NaN payload included) kept.
pub open spec fn dbl_neg(a: u64) -> u64 {
    a ^ 0x8000_0000_0000_0000u64
}

/// Negating twice gives the number back.
pub proof fn lemma_dbl_neg_involution(a: u64)
    ensures
        dbl_neg(dbl_neg(a)) == a,
{
    assert((a ^ 0x8000_0000_0000_0000u64) ^ 0x8000_0000_0000_0000u64 == a) by (bit_vector);
}

/// The bit pattern of the binary64 number that the numeric text `s`
/// denotes, correctly rounded, or `None` when `s` is not a number's text.
pub uninterp spec fn dbl_from_dec(s: Seq<char>) -> Option<u64>;

/// The two bit patterns of binary64 zero: `+0.0` and `-0.0`.  A number
/// compares equal to zero exactly when its bits are one of these.
pub open spec fn dbl_is_zero(bits: u64) -> bool {
    bits == 0u64 || bits == 0x8000_0000_0000_0000u64
}

/// Relies on `rustc_apfloat::ieee::Double`: `add_r` with round to nearest,
/// ties to even (the `+` operator) is the IEEE-754 binary64 sum.
#[verifier::external_body]
pub(crate) fn add_bits(a: u64, b: u64) -> (r: u64)
    ensures
        r == dbl_add(a, b),
{
    (Double::from_bits(a as u128) + Double::from_bits(b as u128)).value.to_bits() as u64
}

/// Relies on `rustc_apfloat::ieee::Double`: `sub_r` with round to nearest,
/// ties to even (the `-` operator) is the IEEE-754 binary64 difference.
#[verifier::external_body]
pub(crate) fn sub_bits(a: u64, b: u64) -> (r: u64)
    ensures
        r == dbl_sub(a, b),
{
    (Double::from_bits(a as u128) - Double::from_bits(b as u128)).value.to_bits() as u64
}

/// Relies on `rustc_apfloat::ieee::Double`: `mul_r` with round to nearest,
/// ties to even (the `*` operator) is the IEEE-754 binary64 product.
#[verifier::external_body]
pub(crate) fn mul_bits(a: u64, b: u64) -> (r: u64)
    ensures
        r == dbl_mul(a, b),
{
    (Double::from_bits(a as u128) * Double::from_bits(b as u128)).value.to_bits() as u64
}

/// Relies on `rustc_apfloat::ieee::Double`: `div_r` with round to nearest,
/// ties to even (the `/` operator) is the IEEE-754 binary64 quotient.
#[verifier::external_body]
pub(crate) fn div_bits(a: u64, b: u64) -> (r: u64)
    ensures
        r == dbl_div(a, b),
{
    (Double::from_bits(a as u128) / Double::from_bits(b as u128)).value.to_bits() as u64
}

/// Relies on `rustc_apfloat::ieee::Double`: unary `-` flips the sign bit
/// and changes nothing else, which the contract states exactly.
#[verifier::external_body]
pub(crate) fn neg_bits(a: u64) -> (r: u64)
    ensures
        r == dbl_neg(a),
{
    (-Double::from_bits(a as u128)).to_bits() as u64
}

/// Relies on `rustc_apfloat::ieee::Double`: `from_str_r` with round to
/// nearest, ties to even reads numeric text (decimal digits, a sign, an
/// exponent, and the special spellings) as the correctly rounded binary64
/// value, and rejects anything it cannot read.  The parser measures the
/// span between a significand's first digit and its point — a span of
/// one-byte characters — as a 32-bit count, so the text must stay below
/// 2^31 characters; within that bound the call always returns.
#[verifier::external_body]
pub(crate) fn parse_dbl_bits(s: &str) -> (r: Option<u64>)
    requires
        s@.len() < 0x8000_0000,
    ensures
        r == dbl_from_dec(s@),
{
    match s.parse::<Double>() {
        Ok(d) => Some(d.to_bits() as u64),
        Err(_) => None,
    }
}

} // verus!
