//! The arithmetic and logic instructions on signed 32-bit operands.
//!
//! Sums, differences, products, quotients and left shifts that do not fit
//! wrap around as two's-complement numbers do. A shift count is taken modulo
//! 32 after reinterpreting it as unsigned, so that a count of -1 shifts by 31.

use vstd::prelude::*;
use crate::error::VmError;
use crate::word::{signed, to_signed, to_unsigned, unsigned, wrap};

verus! {

/// The size of a number without its sign.
pub open spec fn magnitude(x: int) -> int {
    if x < 0 {
        -x
    } else {
        x
    }
}

/// The quotient rounded towards zero.
pub open spec fn quotient(left: int, right: int) -> int
    recommends
        right != 0,
{
    let q = magnitude(left) / magnitude(right);
    if (left < 0) != (right < 0) {
        -q
    } else {
        q
    }
}

/// The remainder that goes with the quotient rounded towards zero: it has
/// the sign of `left`.
pub open spec fn remainder(left: int, right: int) -> int
    recommends
        right != 0,
{
    let m = magnitude(left) % magnitude(right);
    if left < 0 {
        -m
    } else {
        m
    }
}

/// By how many bits a shift with the operand `right` moves.
pub open spec fn shift_count(right: i32) -> u32 {
    to_unsigned(right) % 32
}

/// Whether `sub` names a two-operand operation.
pub open spec fn binop_defined(sub: u32) -> bool {
    sub <= 9 || sub == 11
}

/// The value of the two-operand operation `sub`: 0 add, 1 subtract,
/// 2 multiply, 3 divide, 4 remainder, 5 and, 6 or, 7 exclusive or, 8 shift
/// left, 9 shift right filling with zeros, 11 shift right keeping the sign.
pub open spec fn binop_value(sub: u32, left: i32, right: i32) -> i32
    recommends
        binop_defined(sub),
        (sub == 3 || sub == 4) ==> right != 0,
{
    if sub == 0 {
        wrap(left + right)
    } else if sub == 1 {
        wrap(left - right)
    } else if sub == 2 {
        wrap(left * right)
    } else if sub == 3 {
        wrap(quotient(left as int, right as int))
    } else if sub == 4 {
        wrap(remainder(left as int, right as int))
    } else if sub == 5 {
        left & right
    } else if sub == 6 {
        left | right
    } else if sub == 7 {
        left ^ right
    } else if sub == 8 {
        to_signed(to_unsigned(left) << shift_count(right))
    } else if sub == 9 {
        to_signed(to_unsigned(left) >> shift_count(right))
    } else {
        left >> shift_count(right)
    }
}

/// What the two-operand operation `sub` yields: a division by zero is
/// reported before an unknown operation is.
pub open spec fn binop_result(sub: u32, left: i32, right: i32) -> Result<i32, VmError> {
    if (sub == 3 || sub == 4) && right == 0 {
        Err(VmError::DivideByZero)
    } else if !binop_defined(sub) {
        Err(VmError::BadInstruction)
    } else {
        Ok(binop_value(sub, left, right))
    }
}

/// Whether `sub` names a one-operand operation.
pub open spec fn unop_defined(sub: u32) -> bool {
    sub <= 1
}

/// The value of the one-operand operation `sub`: 0 negate, 1 complement.
pub open spec fn unop_value(sub: u32, operand: i32) -> i32
    recommends
        unop_defined(sub),
{
    if sub == 0 {
        wrap(-operand)
    } else {
        !operand
    }
}

/// What the one-operand operation `sub` yields.
pub open spec fn unop_result(sub: u32, operand: i32) -> Result<i32, VmError> {
    if !unop_defined(sub) {
        Err(VmError::BadInstruction)
    } else {
        Ok(unop_value(sub, operand))
    }
}

/// The quotient rounded towards zero, wrapped around if it does not fit.
fn divide(left: i32, right: i32) -> (value: i32)
    requires
        right != 0,
    ensures
        value == wrap(quotient(left as int, right as int)),
{
    match left.checked_div(right) {
        Some(q) => q,
        None => i32::MIN,
    }
}

/// The remainder that goes with the quotient rounded towards zero.
fn remain(left: i32, right: i32) -> (value: i32)
    requires
        right != 0,
    ensures
        value == wrap(remainder(left as int, right as int)),
{
    match left.checked_rem(right) {
        Some(m) => m,
        None => 0,
    }
}

/// By how many bits a shift with the operand `right` moves.
fn get_shift_count(right: i32) -> (count: u32)
    ensures
        count == shift_count(right),
        count < 32,
{
    unsigned(right) % 32
}

/// Computes the two-operand operation `sub`.
pub fn binary_operation(sub: u32, left: i32, right: i32) -> (result: Result<i32, VmError>)
    ensures
        result == binop_result(sub, left, right),
{
    if (sub == 3 || sub == 4) && right == 0 {
        return Err(VmError::DivideByZero);
    }
    let value: i32 = match sub {
        0 => left.wrapping_add(right),
        1 => left.wrapping_sub(right),
        2 => left.wrapping_mul(right),
        3 => divide(left, right),
        4 => remain(left, right),
        5 => left & right,
        6 => left | right,
        7 => left ^ right,
        8 => signed(unsigned(left) << get_shift_count(right)),
        9 => signed(unsigned(left) >> get_shift_count(right)),
        11 => left >> get_shift_count(right),
        _ => {
            return Err(VmError::BadInstruction);
        },
    };
    Ok(value)
}

/// Computes the one-operand operation `sub`.
pub fn unary_operation(sub: u32, operand: i32) -> (result: Result<i32, VmError>)
    ensures
        result == unop_result(sub, operand),
{
    match sub {
        0 => Ok(0i32.wrapping_sub(operand)),
        1 => Ok(!operand),
        _ => Err(VmError::BadInstruction),
    }
}

} // verus!
