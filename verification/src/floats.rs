use vstd::prelude::*;

verus! {

// The runtime stores a float as the bit pattern of an IEEE 754 double, so
// that every piece of verified logic can carry it around as a plain value.
// The arithmetic itself is done by the rustc_apfloat software implementation
// of IEEE 754, which works directly on bit patterns.

/// The bit pattern of the IEEE 754 double-precision sum of two doubles given
/// by their bit patterns, rounding to nearest, ties to even.
pub uninterp spec fn float_add_bits(a: u64, b: u64) -> u64;

/// Whether two doubles given by their bit patterns compare equal under IEEE
/// 754 (so NaN equals nothing, and the two zeroes are equal).
pub uninterp spec fn float_eq_bits(a: u64, b: u64) -> bool;

/// The bit pattern of the double nearest to the given integer, rounding to
/// nearest, ties to even.
pub uninterp spec fn float_of_int(i: i64) -> u64;

/// The bit pattern of the double denoted by a numeric literal, rounding to
/// nearest, ties to even; `None` where the text is not a valid literal.
pub uninterp spec fn float_bits_of_text(t: Seq<char>) -> Option<u64>;

/// The decimal rendering of the double given by a bit pattern.
pub uninterp spec fn float_text_of(bits: u64) -> Seq<char>;

/// Relies on rustc_apfloat::ieee::Double's `Add`: the sum's bit pattern is a
/// function of the operand bit patterns alone (rounding nearest, ties even).
#[verifier::external_body]
pub(crate) fn add_float_bits(a: u64, b: u64) -> (r: u64)
    ensures
        r == float_add_bits(a, b),
{
    let x = <rustc_apfloat::ieee::Double as rustc_apfloat::Float>::from_bits(a as u128);
    let y = <rustc_apfloat::ieee::Double as rustc_apfloat::Float>::from_bits(b as u128);
    rustc_apfloat::Float::to_bits((x + y).value) as u64
}

/// Relies on rustc_apfloat::ieee::Double's `PartialEq`, which implements the
/// IEEE 754 comparison on the values the bit patterns denote.
#[verifier::external_body]
pub(crate) fn eq_float_bits(a: u64, b: u64) -> (r: bool)
    ensures
        r == float_eq_bits(a, b),
{
    let x = <rustc_apfloat::ieee::Double as rustc_apfloat::Float>::from_bits(a as u128);
    let y = <rustc_apfloat::ieee::Double as rustc_apfloat::Float>::from_bits(b as u128);
    x == y
}

/// Relies on rustc_apfloat::Float::from_i128: the nearest double to an
/// integer, a function of the integer alone (rounding nearest, ties even).
#[verifier::external_body]
pub(crate) fn int_to_float_bits(i: i64) -> (r: u64)
    ensures
        r == float_of_int(i),
{
    let x = <rustc_apfloat::ieee::Double as rustc_apfloat::Float>::from_i128(i as i128).value;
    rustc_apfloat::Float::to_bits(x) as u64
}

/// Relies on rustc_apfloat::ieee::Double's `FromStr`: the correctly rounded
/// double denoted by a decimal literal, a function of the text alone
/// (rounding nearest, ties even, as Rust's own float parsing rounds). The
/// length bound keeps clear of the crate's exponent arithmetic, which is
/// 32-bit.
#[verifier::external_body]
pub(crate) fn text_to_float_bits(s: &str) -> (r: Option<u64>)
    requires
        s@.len() < 0x40000000,
    ensures
        r == float_bits_of_text(s@),
{
    match s.parse::<rustc_apfloat::ieee::Double>() {
        Ok(d) => Some(rustc_apfloat::Float::to_bits(d) as u64),
        Err(_) => None,
    }
}

/// Relies on rustc_apfloat::ieee::Double's `Display`: a decimal rendering of
/// the double a bit pattern denotes, a function of the bit pattern alone.
#[verifier::external_body]
pub(crate) fn float_bits_to_text(bits: u64) -> (r: String)
    ensures
        r@ == float_text_of(bits),
{
    let x = <rustc_apfloat::ieee::Double as rustc_apfloat::Float>::from_bits(bits as u128);
    format!("{}", x)
}

} // verus!
