//! How numbers are written out: in decimal, and in hexadecimal, binary and
//! octal with lowercase digits.

use vstd::prelude::*;
use crate::error::VmError;
use crate::word::{to_unsigned, unsigned};

verus! {

/// The character that ends a line.
pub const NEWLINE: u8 = 10;

/// The character for a digit's value: `0` to `9`, then `a` to `z`.
pub open spec fn digit(value: int) -> u8
    recommends
        0 <= value < 36,
{
    if value < 10 {
        ('0' as u8 + value) as u8
    } else {
        ('a' as u8 + value - 10) as u8
    }
}

/// The digits of `n` in the given radix, most significant first and without
/// leading zeros; zero is the single digit `0`.
pub open spec fn digits(n: nat, radix: nat) -> Seq<u8>
    recommends
        2 <= radix <= 36,
    decreases n,
    when radix >= 2
    via digits_terminates
{
    if n < radix {
        seq![digit(n as int)]
    } else {
        digits(n / radix, radix).push(digit((n % radix) as int))
    }
}

/// The quotient by a radix of at least two is smaller than the number.
#[via_fn]
proof fn digits_terminates(n: nat, radix: nat) {
    if n >= radix {
        vstd::arithmetic::div_mod::lemma_div_decreases(n as int, radix as int);
    }
}

/// A run of `count` zero digits.
pub open spec fn zeros(count: nat) -> Seq<u8> {
    Seq::new(count, |i: int| '0' as u8)
}

/// The digits of `n` in the given radix, filled up with zeros on the left to
/// at least `width` digits.
pub open spec fn padded_digits(n: nat, radix: nat, width: nat) -> Seq<u8> {
    let d = digits(n, radix);
    if d.len() >= width {
        d
    } else {
        zeros((width - d.len()) as nat) + d
    }
}

/// A number in decimal, with a minus sign if it is negative.
pub open spec fn decimal(value: int) -> Seq<u8> {
    if value < 0 {
        seq!['-' as u8] + digits((-value) as nat, 10)
    } else {
        digits(value as nat, 10)
    }
}

/// The radix that a print format writes in, and the letter that announces it.
pub open spec fn format_radix(format: u32) -> (nat, u8) {
    if format == 1 {
        (16, 'x' as u8)
    } else if format == 2 {
        (2, 'b' as u8)
    } else {
        (8, 'o' as u8)
    }
}

/// A word as `print` shows it, without the end of the line: format 0 is signed
/// decimal; formats 1, 2 and 3 show the bit pattern in hexadecimal, binary
/// and octal behind `0x`, `0b` and `0o`.
pub open spec fn formatted(value: i32, format: u32) -> Seq<u8>
    recommends
        format <= 3,
{
    if format == 0 {
        decimal(value as int)
    } else {
        seq!['0' as u8, format_radix(format).1] + digits(
            to_unsigned(value) as nat,
            format_radix(format).0,
        )
    }
}

/// What `format_word` yields.
pub open spec fn format_result(value: i32, format: u32) -> Result<Seq<u8>, VmError> {
    if format > 3 {
        Err(VmError::BadFormat)
    } else {
        Ok(formatted(value, format))
    }
}

/// The character for a digit's value.
fn digit_of(value: u64) -> (c: u8)
    requires
        value < 36,
    ensures
        c == digit(value as int),
{
    if value < 10 {
        '0' as u8 + value as u8
    } else {
        'a' as u8 + (value - 10) as u8
    }
}

/// The digits of `n`, least significant first.
fn reversed_digits(n: u64, radix: u64) -> (r: Vec<u8>)
    requires
        2 <= radix <= 36,
    ensures
        r@.reverse() == digits(n as nat, radix as nat),
{
    let mut r: Vec<u8> = Vec::new();
    let mut rest: u64 = n;
    while rest >= radix
        invariant
            2 <= radix <= 36,
            digits(n as nat, radix as nat) == digits(rest as nat, radix as nat) + r@.reverse(),
        decreases rest,
    {
        let ghost before = r@;
        r.push(digit_of(rest % radix));
        proof {
            assert(r@.reverse() =~= seq![digit((rest % radix) as int)] + before.reverse());
            assert(digits(n as nat, radix as nat) =~= digits(
                (rest / radix) as nat,
                radix as nat,
            ) + r@.reverse());
        }
        rest = rest / radix;
    }
    let ghost before = r@;
    r.push(digit_of(rest));
    proof {
        assert(r@.reverse() =~= seq![digit(rest as int)] + before.reverse());
    }
    r
}

/// Appends `digits` in the opposite order.
fn append_reversed(out: &mut Vec<u8>, digits: &Vec<u8>)
    ensures
        final(out)@ == old(out)@ + digits@.reverse(),
{
    let mut i: usize = digits.len();
    while i > 0
        invariant
            i <= digits@.len(),
            out@ == old(out)@ + digits@.reverse().take(digits@.len() - i),
        decreases i,
    {
        i = i - 1;
        out.push(digits[i]);
        assert(out@ =~= old(out)@ + digits@.reverse().take(digits@.len() - i));
    }
    assert(digits@.reverse().take(digits@.len() as int) =~= digits@.reverse());
}

/// Appends the digits of `n` in the given radix.
pub fn append_digits(out: &mut Vec<u8>, n: u64, radix: u32)
    requires
        2 <= radix <= 36,
    ensures
        final(out)@ == old(out)@ + digits(n as nat, radix as nat),
{
    let r = reversed_digits(n, radix as u64);
    append_reversed(out, &r);
}

/// Appends the digits of `n` in the given radix, filled up with zeros on the
/// left to at least `width` digits.
pub fn append_padded_digits(out: &mut Vec<u8>, n: u64, radix: u32, width: usize)
    requires
        2 <= radix <= 36,
    ensures
        final(out)@ == old(out)@ + padded_digits(n as nat, radix as nat, width as nat),
{
    let mut r = reversed_digits(n, radix as u64);
    let ghost plain = r@;
    while r.len() < width
        invariant
            plain.len() <= r@.len(),
            plain.len() < width ==> r@.len() <= width,
            plain.len() >= width ==> r@.len() == plain.len(),
            r@ == plain + zeros((r@.len() - plain.len()) as nat),
        decreases width - r@.len(),
    {
        r.push('0' as u8);
        assert(r@ =~= plain + zeros((r@.len() - plain.len()) as nat));
    }
    proof {
        let pad = zeros((r@.len() - plain.len()) as nat);
        assert(r@.reverse() =~= pad + plain.reverse());
        assert(plain.reverse().len() == plain.len());
    }
    append_reversed(out, &r);
}

/// Appends `value` in decimal.
pub fn append_decimal(out: &mut Vec<u8>, value: i32)
    ensures
        final(out)@ == old(out)@ + decimal(value as int),
{
    if value < 0 {
        out.push('-' as u8);
        let magnitude: u64 = (-(value as i64)) as u64;
        append_digits(out, magnitude, 10);
        assert(out@ =~= old(out)@ + decimal(value as int));
    } else {
        append_digits(out, value as u64, 10);
    }
}

/// Writes a word as `print` shows it, without the end of the line.
pub fn format_word(value: i32, format: u32) -> (result: Result<Vec<u8>, VmError>)
    ensures
        match format_result(value, format) {
            Ok(text) => result is Ok && result->Ok_0@ == text,
            Err(e) => result == Err::<Vec<u8>, VmError>(e),
        },
{
    let mut out: Vec<u8> = Vec::new();
    match format {
        0 => {
            append_decimal(&mut out, value);
        },
        1 => {
            out.push('0' as u8);
            out.push('x' as u8);
            append_digits(&mut out, unsigned(value) as u64, 16);
        },
        2 => {
            out.push('0' as u8);
            out.push('b' as u8);
            append_digits(&mut out, unsigned(value) as u64, 2);
        },
        3 => {
            out.push('0' as u8);
            out.push('o' as u8);
            append_digits(&mut out, unsigned(value) as u64, 8);
        },
        _ => {
            return Err(VmError::BadFormat);
        },
    }
    assert(out@ =~= formatted(value, format));
    Ok(out)
}

} // verus!
