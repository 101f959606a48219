//! Binary arithmetic on [`Value`]s, with numeric promotion.
//!
//! Addition, subtraction and multiplication keep two integers an integer
//! (wrapping on overflow) and promote to floating point as soon as either
//! operand is floating point; division always produces a floating-point
//! result. Addition also concatenates two strings, and multiplication
//! repeats a string by an integer, in either operand order. Every other
//! pairing of operand types is an `UnsupportedOp` error.

use vstd::prelude::*;

use crate::float_bits;
use crate::float_bits::{add_bits, div_bits, mul_bits, of_i64_bits, sub_bits};
use crate::value::{Value, ValueV};

verus! {

/// Error: the operator is not defined for this pairing of operand types.
#[derive(Debug, Clone, Copy, PartialEq, Eq, Structural)]
pub struct UnsupportedOp;

/// `s` repeated `n` times (empty for `n <= 0`).
pub open spec fn str_repeat(s: Seq<char>, n: int) -> Seq<char>
    decreases n,
{
    if n <= 0 {
        Seq::empty()
    } else {
        str_repeat(s, n - 1) + s
    }
}

/// The repeat count a multiplication operand `n` reduces to: `n` when
/// positive, zero otherwise.
pub open spec fn repeat_count(n: i64) -> int {
    if n > 0 {
        n as int
    } else {
        0
    }
}

/// What addition returns: integer + integer stays integer (wrapping),
/// any floating-point operand promotes, and two strings concatenate.
pub open spec fn spec_add(a: ValueV, b: ValueV) -> Result<ValueV, UnsupportedOp> {
    match (a, b) {
        (ValueV::Int(x), ValueV::Int(y)) => Ok(
            ValueV::Int(vstd::wrapping::i64_specs::wrapping_add(x, y)),
        ),
        (ValueV::Float(x), ValueV::Int(y)) => Ok(ValueV::Float(add_bits(x, of_i64_bits(y)))),
        (ValueV::Int(x), ValueV::Float(y)) => Ok(ValueV::Float(add_bits(of_i64_bits(x), y))),
        (ValueV::Float(x), ValueV::Float(y)) => Ok(ValueV::Float(add_bits(x, y))),
        (ValueV::Str(x), ValueV::Str(y)) => Ok(ValueV::Str(x + y)),
        _ => Err(UnsupportedOp),
    }
}

/// What subtraction returns: as addition, without the string case.
pub open spec fn spec_sub(a: ValueV, b: ValueV) -> Result<ValueV, UnsupportedOp> {
    match (a, b) {
        (ValueV::Int(x), ValueV::Int(y)) => Ok(
            ValueV::Int(vstd::wrapping::i64_specs::wrapping_sub(x, y)),
        ),
        (ValueV::Float(x), ValueV::Int(y)) => Ok(ValueV::Float(sub_bits(x, of_i64_bits(y)))),
        (ValueV::Int(x), ValueV::Float(y)) => Ok(ValueV::Float(sub_bits(of_i64_bits(x), y))),
        (ValueV::Float(x), ValueV::Float(y)) => Ok(ValueV::Float(sub_bits(x, y))),
        _ => Err(UnsupportedOp),
    }
}

/// What multiplication returns: numeric cases as addition; a string times
/// an integer, in either order, is the string repeated `n` times when `n`
/// is positive and the empty string otherwise.
pub open spec fn spec_mul(a: ValueV, b: ValueV) -> Result<ValueV, UnsupportedOp> {
    match (a, b) {
        (ValueV::Int(x), ValueV::Int(y)) => Ok(
            ValueV::Int(vstd::wrapping::i64_specs::wrapping_mul(x, y)),
        ),
        (ValueV::Float(x), ValueV::Int(y)) => Ok(ValueV::Float(mul_bits(x, of_i64_bits(y)))),
        (ValueV::Int(x), ValueV::Float(y)) => Ok(ValueV::Float(mul_bits(of_i64_bits(x), y))),
        (ValueV::Float(x), ValueV::Float(y)) => Ok(ValueV::Float(mul_bits(x, y))),
        (ValueV::Str(s), ValueV::Int(n)) => Ok(ValueV::Str(str_repeat(s, repeat_count(n)))),
        (ValueV::Int(n), ValueV::Str(s)) => Ok(ValueV::Str(str_repeat(s, repeat_count(n)))),
        _ => Err(UnsupportedOp),
    }
}

/// What division returns: always floating point, for every numeric pairing.
pub open spec fn spec_div(a: ValueV, b: ValueV) -> Result<ValueV, UnsupportedOp> {
    match (a, b) {
        (ValueV::Int(x), ValueV::Int(y)) => Ok(
            ValueV::Float(div_bits(of_i64_bits(x), of_i64_bits(y))),
        ),
        (ValueV::Float(x), ValueV::Int(y)) => Ok(ValueV::Float(div_bits(x, of_i64_bits(y)))),
        (ValueV::Int(x), ValueV::Float(y)) => Ok(ValueV::Float(div_bits(of_i64_bits(x), y))),
        (ValueV::Float(x), ValueV::Float(y)) => Ok(ValueV::Float(div_bits(x, y))),
        _ => Err(UnsupportedOp),
    }
}

/// Whether an executable result agrees with a specification-level one.
pub open spec fn binop_result_matches(
    r: Result<Value, UnsupportedOp>,
    s: Result<ValueV, UnsupportedOp>,
) -> bool {
    match r {
        Ok(v) => s == Ok::<ValueV, UnsupportedOp>(v@),
        Err(e) => s == Err::<ValueV, UnsupportedOp>(e),
    }
}

impl Value {
    /// Add two values; see [`spec_add`].
    pub fn add(self, rhs: Value) -> (r: Result<Value, UnsupportedOp>)
        ensures
            binop_result_matches(r, spec_add(self@, rhs@)),
    {
        match (self, rhs) {
            (Value::Int(x), Value::Int(y)) => Ok(Value::Int(x.wrapping_add(y))),
            (Value::Float(x), Value::Int(y)) => Ok(
                Value::Float(float_bits::add(x, float_bits::of_i64(y))),
            ),
            (Value::Int(x), Value::Float(y)) => Ok(
                Value::Float(float_bits::add(float_bits::of_i64(x), y)),
            ),
            (Value::Float(x), Value::Float(y)) => Ok(Value::Float(float_bits::add(x, y))),
            (Value::Str(x), Value::Str(y)) => Ok(Value::Str(x.concat(y.as_str()))),
            _ => Err(UnsupportedOp),
        }
    }

    /// Subtract two values; see [`spec_sub`].
    pub fn sub(self, rhs: Value) -> (r: Result<Value, UnsupportedOp>)
        ensures
            binop_result_matches(r, spec_sub(self@, rhs@)),
    {
        match (self, rhs) {
            (Value::Int(x), Value::Int(y)) => Ok(Value::Int(x.wrapping_sub(y))),
            (Value::Float(x), Value::Int(y)) => Ok(
                Value::Float(float_bits::sub(x, float_bits::of_i64(y))),
            ),
            (Value::Int(x), Value::Float(y)) => Ok(
                Value::Float(float_bits::sub(float_bits::of_i64(x), y)),
            ),
            (Value::Float(x), Value::Float(y)) => Ok(Value::Float(float_bits::sub(x, y))),
            _ => Err(UnsupportedOp),
        }
    }

    /// Multiply two values; see [`spec_mul`].
    pub fn mul(self, rhs: Value) -> (r: Result<Value, UnsupportedOp>)
        ensures
            binop_result_matches(r, spec_mul(self@, rhs@)),
    {
        match (self, rhs) {
            (Value::Int(x), Value::Int(y)) => Ok(Value::Int(x.wrapping_mul(y))),
            (Value::Float(x), Value::Int(y)) => Ok(
                Value::Float(float_bits::mul(x, float_bits::of_i64(y))),
            ),
            (Value::Int(x), Value::Float(y)) => Ok(
                Value::Float(float_bits::mul(float_bits::of_i64(x), y)),
            ),
            (Value::Float(x), Value::Float(y)) => Ok(Value::Float(float_bits::mul(x, y))),
            (Value::Str(s), Value::Int(n)) => Ok(Value::Str(repeat_string(&s, n))),
            (Value::Int(n), Value::Str(s)) => Ok(Value::Str(repeat_string(&s, n))),
            _ => Err(UnsupportedOp),
        }
    }

    /// Divide two values; see [`spec_div`].
    pub fn div(self, rhs: Value) -> (r: Result<Value, UnsupportedOp>)
        ensures
            binop_result_matches(r, spec_div(self@, rhs@)),
    {
        match (self, rhs) {
            (Value::Int(x), Value::Int(y)) => Ok(
                Value::Float(float_bits::div(float_bits::of_i64(x), float_bits::of_i64(y))),
            ),
            (Value::Float(x), Value::Int(y)) => Ok(
                Value::Float(float_bits::div(x, float_bits::of_i64(y))),
            ),
            (Value::Int(x), Value::Float(y)) => Ok(
                Value::Float(float_bits::div(float_bits::of_i64(x), y)),
            ),
            (Value::Float(x), Value::Float(y)) => Ok(Value::Float(float_bits::div(x, y))),
            _ => Err(UnsupportedOp),
        }
    }
}

/// `s` repeated `n` times; empty for `n <= 0`.
fn repeat_string(s: &String, n: i64) -> (r: String)
    ensures
        r@ == str_repeat(s@, repeat_count(n)),
{
    let mut out = String::new();
    if n <= 0 {
        proof {
            assert(str_repeat(s@, repeat_count(n)) =~= Seq::<char>::empty());
        }
        return out;
    }
    let mut k: i64 = 0;
    while k < n
        invariant
            0 <= k <= n,
            out@ == str_repeat(s@, k as int),
        decreases n - k,
    {
        out.append(s.as_str());
        k = k + 1;
    }
    out
}

/// Whether a value is numeric: an integer or a floating-point value.
pub open spec fn is_numeric(v: ValueV) -> bool {
    v is Int || v is Float
}

/// The numeric promotion table. Two integers stay integer under addition,
/// subtraction and multiplication; as soon as either operand of a numeric
/// pair is floating point, so is the result; and division of any numeric
/// pair is floating point, integers included.
pub proof fn lemma_numeric_promotion(a: ValueV, b: ValueV)
    requires
        is_numeric(a),
        is_numeric(b),
    ensures
        spec_add(a, b) is Ok && spec_sub(a, b) is Ok && spec_mul(a, b) is Ok && spec_div(
            a,
            b,
        ) is Ok,
        a is Int && b is Int ==> spec_add(a, b)->Ok_0 is Int && spec_sub(a, b)->Ok_0 is Int
            && spec_mul(a, b)->Ok_0 is Int,
        a is Float || b is Float ==> spec_add(a, b)->Ok_0 is Float && spec_sub(a, b)->Ok_0 is Float
            && spec_mul(a, b)->Ok_0 is Float,
        spec_div(a, b)->Ok_0 is Float,
{
}

/// String repetition reduces both operand orders to one repeat count:
/// `s * n` and `n * s` are the same string, `s` repeated `n` times when
/// `n` is positive and empty when `n` is zero or negative.
pub proof fn lemma_str_mul_orders(s: Seq<char>, n: i64)
    ensures
        spec_mul(ValueV::Str(s), ValueV::Int(n)) == spec_mul(ValueV::Int(n), ValueV::Str(s)),
        spec_mul(ValueV::Str(s), ValueV::Int(n)) == Ok::<ValueV, UnsupportedOp>(
            ValueV::Str(str_repeat(s, repeat_count(n))),
        ),
        n <= 0 ==> str_repeat(s, repeat_count(n)) == Seq::<char>::empty(),
{
    assert(str_repeat(s, 0) == Seq::<char>::empty());
}


/// The exact integer results of the promotion table, on the inputs whose
/// mathematical result a signed 64-bit integer can hold: there, integer
/// addition, subtraction and multiplication compute the true sum,
/// difference and product (outside that range they wrap).
pub proof fn lemma_int_arith_exact(a: i64, b: i64)
    ensures
        i64::MIN <= a + b <= i64::MAX ==> spec_add(ValueV::Int(a), ValueV::Int(b)) == Ok::<
            ValueV,
            UnsupportedOp,
        >(ValueV::Int((a + b) as i64)),
        i64::MIN <= a - b <= i64::MAX ==> spec_sub(ValueV::Int(a), ValueV::Int(b)) == Ok::<
            ValueV,
            UnsupportedOp,
        >(ValueV::Int((a - b) as i64)),
        i64::MIN <= a * b <= i64::MAX ==> spec_mul(ValueV::Int(a), ValueV::Int(b)) == Ok::<
            ValueV,
            UnsupportedOp,
        >(ValueV::Int((a * b) as i64)),
{
    let range = 0x1_0000_0000_0000_0000;
    if i64::MIN <= a * b <= i64::MAX {
        let x = a * b;
        assert(x % range == if x >= 0 {
            x
        } else {
            x + range
        }) by {
            if x >= 0 {
                assert(x % range == x) by (nonlinear_arith)
                    requires
                        0 <= x < range,
                ;
            } else {
                assert(x % range == x + range) by (nonlinear_arith)
                    requires
                        -range <= x < 0,
                ;
            }
        }
        assert(vstd::wrapping::i64_specs::signed_crop(x) == x as i64);
    }
}

} // verus!
