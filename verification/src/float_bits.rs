//! Runtime floating-point support, carried as IEEE 754 binary64 bit patterns.
//!
//! The virtual machine stores every floating-point datum as its raw `u64` bit
//! pattern. Equality, ordering and truthiness of such patterns are pure bit
//! arithmetic and are implemented and verified here. The arithmetic that
//! produces *new* patterns (addition and friends, conversion from integers,
//! parsing of literals) is delegated to `rustc_apfloat`'s software
//! implementation of IEEE 754, a deterministic function of the input bits,
//! reached through the trusted wrappers at the bottom of this module.

use vstd::prelude::*;

verus! {

/// The sign bit of a binary64 pattern.
pub const F64_SIGN_BIT: u64 = 0x8000_0000_0000_0000;

/// The magnitude (all bits but the sign) of an infinity; any larger
/// magnitude is a NaN.
pub const F64_INF_MAGNITUDE: u64 = 0x7ff0_0000_0000_0000;

/// The magnitude of a bit pattern: everything but the sign bit.
pub open spec fn f64_magnitude(bits: u64) -> u64 {
    if bits >= F64_SIGN_BIT {
        (bits - F64_SIGN_BIT) as u64
    } else {
        bits
    }
}

/// Whether the sign bit is set.
pub open spec fn f64_is_neg(bits: u64) -> bool {
    bits >= F64_SIGN_BIT
}

/// Whether the pattern encodes a NaN.
pub open spec fn f64_is_nan(bits: u64) -> bool {
    f64_magnitude(bits) > F64_INF_MAGNITUDE
}

/// Whether the pattern encodes positive or negative zero.
pub open spec fn f64_is_zero(bits: u64) -> bool {
    f64_magnitude(bits) == 0
}

/// The position of a non-NaN pattern on the real line, as an integer key:
/// sign-magnitude order, with both zeros at key 0. For non-NaN patterns,
/// IEEE 754 comparison is exactly integer comparison of these keys.
pub open spec fn f64_order_key(bits: u64) -> int {
    if f64_is_neg(bits) {
        -(f64_magnitude(bits) as int)
    } else {
        f64_magnitude(bits) as int
    }
}

/// IEEE 754 equality of two patterns: false whenever either is NaN,
/// and true for `0.0 == -0.0`.
pub open spec fn f64_eq(a: u64, b: u64) -> bool {
    &&& !f64_is_nan(a)
    &&& !f64_is_nan(b)
    &&& f64_order_key(a) == f64_order_key(b)
}

/// IEEE 754 `<` on two patterns: false whenever either is NaN.
pub open spec fn f64_lt(a: u64, b: u64) -> bool {
    &&& !f64_is_nan(a)
    &&& !f64_is_nan(b)
    &&& f64_order_key(a) < f64_order_key(b)
}

/// IEEE 754 `<=` on two patterns: false whenever either is NaN.
pub open spec fn f64_le(a: u64, b: u64) -> bool {
    &&& !f64_is_nan(a)
    &&& !f64_is_nan(b)
    &&& f64_order_key(a) <= f64_order_key(b)
}

/// Truthiness of a pattern: everything but the two zeros is truthy
/// (a NaN is nonzero, hence truthy).
pub open spec fn f64_truthy(bits: u64) -> bool {
    !f64_is_zero(bits)
}

/// The magnitude of a bit pattern (executable form).
pub fn magnitude(bits: u64) -> (m: u64)
    ensures
        m == f64_magnitude(bits),
{
    if bits >= F64_SIGN_BIT {
        bits - F64_SIGN_BIT
    } else {
        bits
    }
}

/// IEEE 754 equality on bit patterns.
pub fn eq_bits(a: u64, b: u64) -> (r: bool)
    ensures
        r == f64_eq(a, b),
{
    let ma = magnitude(a);
    let mb = magnitude(b);
    if ma > F64_INF_MAGNITUDE || mb > F64_INF_MAGNITUDE {
        return false;
    }
    if ma == 0 && mb == 0 {
        return true;
    }
    a == b
}

/// IEEE 754 `<` on bit patterns.
pub fn lt_bits(a: u64, b: u64) -> (r: bool)
    ensures
        r == f64_lt(a, b),
{
    let ma = magnitude(a);
    let mb = magnitude(b);
    if ma > F64_INF_MAGNITUDE || mb > F64_INF_MAGNITUDE {
        return false;
    }
    let neg_a = a >= F64_SIGN_BIT;
    let neg_b = b >= F64_SIGN_BIT;
    if neg_a && neg_b {
        mb < ma
    } else if neg_a {
        // a <= 0 <= b: strictly less unless both are zero.
        ma != 0 || mb != 0
    } else if neg_b {
        // a >= 0 >= b: never less.
        false
    } else {
        ma < mb
    }
}

/// IEEE 754 `<=` on bit patterns.
pub fn le_bits(a: u64, b: u64) -> (r: bool)
    ensures
        r == f64_le(a, b),
{
    let ma = magnitude(a);
    let mb = magnitude(b);
    if ma > F64_INF_MAGNITUDE || mb > F64_INF_MAGNITUDE {
        return false;
    }
    let neg_a = a >= F64_SIGN_BIT;
    let neg_b = b >= F64_SIGN_BIT;
    if neg_a && neg_b {
        mb <= ma
    } else if neg_a {
        true
    } else if neg_b {
        // a >= 0 >= b: only when both are zero.
        ma == 0 && mb == 0
    } else {
        ma <= mb
    }
}

/// Truthiness of a bit pattern.
pub fn truthy_bits(bits: u64) -> (r: bool)
    ensures
        r == f64_truthy(bits),
{
    let m = magnitude(bits);
    m != 0
}

/// The bit pattern produced by IEEE 754 binary64 addition of two patterns,
/// rounding to nearest, ties to even.
pub uninterp spec fn add_bits(a: u64, b: u64) -> u64;

/// The bit pattern produced by IEEE 754 binary64 subtraction.
pub uninterp spec fn sub_bits(a: u64, b: u64) -> u64;

/// The bit pattern produced by IEEE 754 binary64 multiplication.
pub uninterp spec fn mul_bits(a: u64, b: u64) -> u64;

/// The bit pattern produced by IEEE 754 binary64 division.
pub uninterp spec fn div_bits(a: u64, b: u64) -> u64;

/// The binary64 pattern nearest to a signed 64-bit integer.
pub uninterp spec fn of_i64_bits(i: i64) -> u64;

/// The binary64 pattern a decimal literal parses to, or `None` when the
/// text is not a valid floating-point literal.
pub uninterp spec fn parse_f64_bits(s: Seq<char>) -> Option<u64>;

/// Relies on `rustc_apfloat::ieee::Double`'s `Add` impl (`add_r` with
/// round-to-nearest-even): IEEE 754 addition, a pure function of the two
/// bit patterns.
#[verifier::external_body]
pub fn add(a: u64, b: u64) -> (r: u64)
    ensures
        r == add_bits(a, b),
{
    let x = <rustc_apfloat::ieee::Double as rustc_apfloat::Float>::from_bits(a as u128);
    let y = <rustc_apfloat::ieee::Double as rustc_apfloat::Float>::from_bits(b as u128);
    rustc_apfloat::Float::to_bits((x + y).value) as u64
}

/// Relies on `rustc_apfloat::ieee::Double`'s `Sub` impl (`sub_r` with
/// round-to-nearest-even): IEEE 754 subtraction on bit patterns.
#[verifier::external_body]
pub fn sub(a: u64, b: u64) -> (r: u64)
    ensures
        r == sub_bits(a, b),
{
    let x = <rustc_apfloat::ieee::Double as rustc_apfloat::Float>::from_bits(a as u128);
    let y = <rustc_apfloat::ieee::Double as rustc_apfloat::Float>::from_bits(b as u128);
    rustc_apfloat::Float::to_bits((x - y).value) as u64
}

/// Relies on `rustc_apfloat::ieee::Double`'s `Mul` impl (`mul_r` with
/// round-to-nearest-even): IEEE 754 multiplication on bit patterns.
#[verifier::external_body]
pub fn mul(a: u64, b: u64) -> (r: u64)
    ensures
        r == mul_bits(a, b),
{
    let x = <rustc_apfloat::ieee::Double as rustc_apfloat::Float>::from_bits(a as u128);
    let y = <rustc_apfloat::ieee::Double as rustc_apfloat::Float>::from_bits(b as u128);
    rustc_apfloat::Float::to_bits((x * y).value) as u64
}

/// Relies on `rustc_apfloat::ieee::Double`'s `Div` impl (`div_r` with
/// round-to-nearest-even): IEEE 754 division on bit patterns.
#[verifier::external_body]
pub fn div(a: u64, b: u64) -> (r: u64)
    ensures
        r == div_bits(a, b),
{
    let x = <rustc_apfloat::ieee::Double as rustc_apfloat::Float>::from_bits(a as u128);
    let y = <rustc_apfloat::ieee::Double as rustc_apfloat::Float>::from_bits(b as u128);
    rustc_apfloat::Float::to_bits((x / y).value) as u64
}

/// Relies on `rustc_apfloat::Float::from_i128` (round-to-nearest-even):
/// conversion of a signed integer to the nearest binary64 pattern.
#[verifier::external_body]
pub fn of_i64(i: i64) -> (r: u64)
    ensures
        r == of_i64_bits(i),
{
    let d = <rustc_apfloat::ieee::Double as rustc_apfloat::Float>::from_i128(i as i128).value;
    rustc_apfloat::Float::to_bits(d) as u64
}

/// Relies on `rustc_apfloat::ieee::Double`'s `FromStr` impl
/// (`from_str_r` with round-to-nearest-even): correctly rounded decimal
/// parsing, returning an error (never panicking) on malformed text.
#[verifier::external_body]
pub fn parse_f64(s: &str) -> (r: Option<u64>)
    ensures
        r == parse_f64_bits(s@),
{
    match s.parse::<rustc_apfloat::ieee::Double>() {
        Ok(d) => Some(rustc_apfloat::Float::to_bits(d) as u64),
        Err(_) => None,
    }
}

} // verus!
