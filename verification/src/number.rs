//! Arithmetic and order on the two numeric types.
//!
//! Integers are 64-bit and signed; an operation whose result does not fit is a
//! [`Fault`], as is a division by zero. Floats are IEEE-754 binary64 numbers,
//! held as their bit patterns. Equality and order of floats are decided here on
//! the bits; the four arithmetic operations are computed by `rustc_apfloat`,
//! rounding to nearest, ties to even.

use crate::error::Fault;
use rustc_apfloat::ieee::Double;
use rustc_apfloat::Float;
use vstd::prelude::*;

verus! {

/// The four arithmetic operations.
#[derive(Clone, Copy, Debug, PartialEq, Eq, Structural)]
pub enum ArithOp {
    Add,
    Sub,
    Mul,
    Div,
}

/// The integer `n` if it fits in 64 bits.
pub open spec fn in_range(n: int) -> Result<i64, Fault> {
    if i64::MIN <= n <= i64::MAX {
        Ok(n as i64)
    } else {
        Err(Fault::IntegerOverflow)
    }
}

/// The quotient of `a` by `b`, rounded toward zero.
pub open spec fn truncated_quotient(a: int, b: int) -> int
    recommends
        b != 0,
{
    if a >= 0 && b > 0 {
        a / b
    } else if a < 0 && b < 0 {
        (-a) / (-b)
    } else if a < 0 {
        -((-a) / b)
    } else {
        -(a / (-b))
    }
}

/// What an operation on two integers yields.
pub open spec fn int_result(op: ArithOp, a: i64, b: i64) -> Result<i64, Fault> {
    match op {
        ArithOp::Add => in_range(a + b),
        ArithOp::Sub => in_range(a - b),
        ArithOp::Mul => in_range(a * b),
        ArithOp::Div => if b == 0 {
            Err(Fault::DivisionByZero)
        } else {
            in_range(truncated_quotient(a as int, b as int))
        },
    }
}

/// Applies an operation to two integers.
pub fn int_arith(op: ArithOp, a: i64, b: i64) -> (result: Result<i64, Fault>)
    ensures
        result == int_result(op, a, b),
{
    let checked = match op {
        ArithOp::Add => a.checked_add(b),
        ArithOp::Sub => a.checked_sub(b),
        ArithOp::Mul => a.checked_mul(b),
        ArithOp::Div => {
            if b == 0 {
                return Err(Fault::DivisionByZero);
            }
            a.checked_div(b)
        },
    };
    match checked {
        Some(n) => Ok(n),
        None => Err(Fault::IntegerOverflow),
    }
}

/// The bits of the sum of the floats with bits `a` and `b`, as
/// `rustc_apfloat` computes it.
pub uninterp spec fn float_sum(a: u64, b: u64) -> u64;

/// The bits of the difference of the floats with bits `a` and `b`, as
/// `rustc_apfloat` computes it.
pub uninterp spec fn float_difference(a: u64, b: u64) -> u64;

/// The bits of the product of the floats with bits `a` and `b`, as
/// `rustc_apfloat` computes it.
pub uninterp spec fn float_product(a: u64, b: u64) -> u64;

/// The bits of the quotient of the floats with bits `a` and `b`, as
/// `rustc_apfloat` computes it.
pub uninterp spec fn float_quotient(a: u64, b: u64) -> u64;

/// Calls `+` of `rustc_apfloat::ieee::Double` on the two binary64 numbers
/// with the given bits. The operation is computed in software from the bits
/// alone, so its result is a function of them, which the contract names.
#[verifier::external_body]
fn ieee_add(a: u64, b: u64) -> (bits: u64)
    ensures
        bits == float_sum(a, b),
{
    (Double::from_bits(a as u128) + Double::from_bits(b as u128)).value.to_bits() as u64
}

/// Calls `-` of `rustc_apfloat::ieee::Double` on the two binary64 numbers
/// with the given bits; the contract names the result.
#[verifier::external_body]
fn ieee_sub(a: u64, b: u64) -> (bits: u64)
    ensures
        bits == float_difference(a, b),
{
    (Double::from_bits(a as u128) - Double::from_bits(b as u128)).value.to_bits() as u64
}

/// Calls `*` of `rustc_apfloat::ieee::Double` on the two binary64 numbers
/// with the given bits; the contract names the result.
#[verifier::external_body]
fn ieee_mul(a: u64, b: u64) -> (bits: u64)
    ensures
        bits == float_product(a, b),
{
    (Double::from_bits(a as u128) * Double::from_bits(b as u128)).value.to_bits() as u64
}

/// Calls `/` of `rustc_apfloat::ieee::Double` on the two binary64 numbers
/// with the given bits; the contract names the result. A division by zero
/// yields an infinity or a NaN there, never a failure.
#[verifier::external_body]
fn ieee_div(a: u64, b: u64) -> (bits: u64)
    ensures
        bits == float_quotient(a, b),
{
    (Double::from_bits(a as u128) / Double::from_bits(b as u128)).value.to_bits() as u64
}

/// What an operation on two floats yields, as bits.
pub open spec fn float_result(op: ArithOp, a: u64, b: u64) -> u64 {
    match op {
        ArithOp::Add => float_sum(a, b),
        ArithOp::Sub => float_difference(a, b),
        ArithOp::Mul => float_product(a, b),
        ArithOp::Div => float_quotient(a, b),
    }
}

/// Applies an operation to two floats, given and returned as bits.
pub fn float_arith(op: ArithOp, a: u64, b: u64) -> (bits: u64)
    ensures
        bits == float_result(op, a, b),
{
    match op {
        ArithOp::Add => ieee_add(a, b),
        ArithOp::Sub => ieee_sub(a, b),
        ArithOp::Mul => ieee_mul(a, b),
        ArithOp::Div => ieee_div(a, b),
    }
}

/// The bit that holds the sign of a binary64 number.
pub const SIGN_BIT: u64 = 0x8000_0000_0000_0000;

/// The bits of positive infinity: the largest magnitude that is a number.
pub const INFINITY_BITS: u64 = 0x7ff0_0000_0000_0000;

/// The bits without the sign.
pub open spec fn magnitude(bits: u64) -> int {
    if bits >= SIGN_BIT {
        bits - SIGN_BIT
    } else {
        bits as int
    }
}

/// The bits stand for no number.
pub open spec fn float_is_nan(bits: u64) -> bool {
    magnitude(bits) > INFINITY_BITS
}

/// An integer that orders the numbers as their values do: among the bits of
/// one sign a larger magnitude is further from zero, and both zeros get 0.
pub open spec fn float_rank(bits: u64) -> int {
    if bits >= SIGN_BIT {
        -magnitude(bits)
    } else {
        magnitude(bits)
    }
}

/// IEEE equality: no NaN equals anything, and the two zeros are equal.
pub open spec fn float_equal(a: u64, b: u64) -> bool {
    !float_is_nan(a) && !float_is_nan(b) && float_rank(a) == float_rank(b)
}

/// IEEE strict order: a NaN is neither below nor above anything.
pub open spec fn float_less(a: u64, b: u64) -> bool {
    !float_is_nan(a) && !float_is_nan(b) && float_rank(a) < float_rank(b)
}

/// Equality of floats is symmetric, and the order is strict: nothing is below
/// itself, no two numbers are below each other, and the order is transitive.
/// Of two numbers, one is below the other or they are equal; a NaN is neither
/// equal to anything nor below or above it.
pub proof fn law_float_order(a: u64, b: u64, c: u64)
    ensures
        float_equal(a, b) == float_equal(b, a),
        !float_less(a, a),
        float_less(a, b) ==> !float_less(b, a) && !float_equal(a, b),
        float_less(a, b) && float_less(b, c) ==> float_less(a, c),
        !float_is_nan(a) && !float_is_nan(b) ==> float_less(a, b) || float_equal(a, b)
            || float_less(b, a),
        float_is_nan(a) ==> !float_equal(a, b) && !float_less(a, b) && !float_less(b, a),
        float_equal(0, SIGN_BIT),
{
}

fn split(bits: u64) -> (parts: (bool, u64))
    ensures
        parts.0 == (bits >= SIGN_BIT),
        parts.1 == magnitude(bits),
{
    if bits >= SIGN_BIT {
        (true, bits - SIGN_BIT)
    } else {
        (false, bits)
    }
}

/// Whether the bits stand for no number.
pub fn is_nan(bits: u64) -> (nan: bool)
    ensures
        nan == float_is_nan(bits),
{
    split(bits).1 > INFINITY_BITS
}

/// Whether two floats, given as bits, are equal.
pub fn floats_equal(a: u64, b: u64) -> (equal: bool)
    ensures
        equal == float_equal(a, b),
{
    let (a_negative, a_magnitude) = split(a);
    let (b_negative, b_magnitude) = split(b);
    if a_magnitude > INFINITY_BITS || b_magnitude > INFINITY_BITS {
        false
    } else if a_negative == b_negative {
        a_magnitude == b_magnitude
    } else {
        a_magnitude == 0 && b_magnitude == 0
    }
}

/// Whether the first of two floats, given as bits, is below the second.
pub fn float_below(a: u64, b: u64) -> (below: bool)
    ensures
        below == float_less(a, b),
{
    let (a_negative, a_magnitude) = split(a);
    let (b_negative, b_magnitude) = split(b);
    if a_magnitude > INFINITY_BITS || b_magnitude > INFINITY_BITS {
        false
    } else if a_negative && b_negative {
        a_magnitude > b_magnitude
    } else if a_negative {
        a_magnitude != 0 || b_magnitude != 0
    } else if b_negative {
        false
    } else {
        a_magnitude < b_magnitude
    }
}

} // verus!
