//! The fields of an instruction word.
//!
//! The four most significant bits select the instruction. What the other 28
//! bits mean depends on it: a sub-opcode, a condition, an immediate or an
//! offset. Signed fields are two's-complement numbers of their width.

use vstd::prelude::*;

verus! {

/// A field of `modulus` = `2^width` possible values, read as a two's-complement
/// number of that width.
pub open spec fn sign_extend(field: int, modulus: int) -> int {
    if 2 * field >= modulus {
        field - modulus
    } else {
        field
    }
}

/// Bits 31..28: the instruction.
pub open spec fn opcode(word: u32) -> u32 {
    word / 0x1000_0000
}

/// Bits 27..24: the operation within the `misc`, `binop` and `unop` families.
pub open spec fn sub_opcode(word: u32) -> u32 {
    word / 0x100_0000 % 0x10
}

/// Bits 27..0, unsigned.
pub open spec fn operand28(word: u32) -> int {
    (word % 0x1000_0000) as int
}

/// Bits 27..0, signed.
pub open spec fn signed_operand28(word: u32) -> int {
    sign_extend((word % 0x1000_0000) as int, 0x1000_0000)
}

/// Bits 27..2 as a signed count of words, in bytes.
pub open spec fn word_offset26(word: u32) -> int {
    4 * sign_extend((word / 4 % 0x400_0000) as int, 0x400_0000)
}

/// Bits 27..0 with the two lowest cleared: a size in bytes that is a whole
/// number of words.
pub open spec fn frame_size(word: u32) -> int {
    4 * (word / 4 % 0x400_0000)
}

/// Bits 24..0, signed: the displacement of a conditional branch, in bytes.
pub open spec fn branch_offset25(word: u32) -> int {
    sign_extend((word % 0x200_0000) as int, 0x200_0000)
}

/// Bits 27..25: the condition of a two-operand branch.
pub open spec fn binary_condition(word: u32) -> u32 {
    word / 0x200_0000 % 8
}

/// Bits 26..25: the condition of a one-operand branch.
pub open spec fn unary_condition(word: u32) -> u32 {
    word / 0x200_0000 % 4
}

/// Bits 1..0: the format of `print`.
pub open spec fn print_format(word: u32) -> u32 {
    word % 4
}

/// Bits 23..12 as a signed count of words, in bytes: the first operand of `swap`.
pub open spec fn swap_from(word: u32) -> int {
    4 * sign_extend((word / 0x1000 % 0x1000) as int, 0x1000)
}

/// Bits 11..0 as a signed count of words, in bytes: the second operand of `swap`.
pub open spec fn swap_to(word: u32) -> int {
    4 * sign_extend((word % 0x1000) as int, 0x1000)
}

/// Bits 23..0: the longest string that `stinput` stores, in bytes.
pub open spec fn string_limit(word: u32) -> int {
    (word % 0x100_0000) as int
}

/// Bits 27..24.
pub fn get_sub_opcode(instruction: u32) -> (sub: u32)
    ensures
        sub == sub_opcode(instruction),
        sub < 16,
{
    assert((instruction >> 24) & 0xf == instruction / 0x100_0000 % 0x10) by (bit_vector);
    (instruction >> 24) & 0xf
}

/// Bits 27..0, unsigned.
pub fn get_operand28(instruction: u32) -> (operand: u32)
    ensures
        operand == operand28(instruction),
{
    assert(instruction & 0x0fff_ffff == instruction % 0x1000_0000) by (bit_vector);
    instruction & 0x0fff_ffff
}

/// Bits 27..0, signed.
pub fn get_signed_operand28(instruction: u32) -> (operand: i32)
    ensures
        operand == signed_operand28(instruction),
{
    assert(instruction & 0x0fff_ffff == instruction % 0x1000_0000) by (bit_vector);
    let field: i32 = (instruction & 0x0fff_ffff) as i32;
    if field >= 0x0800_0000 {
        field - 0x1000_0000
    } else {
        field
    }
}

/// Bits 27..2 as a signed count of words, in bytes.
pub fn get_word_offset26(instruction: u32) -> (offset: i32)
    ensures
        offset == word_offset26(instruction),
        -0x800_0000 <= offset < 0x800_0000,
        offset % 4 == 0,
{
    assert((instruction >> 2) & 0x03ff_ffff == instruction / 4 % 0x400_0000) by (bit_vector);
    let field: i32 = ((instruction >> 2) & 0x03ff_ffff) as i32;
    if field >= 0x0200_0000 {
        (field - 0x0400_0000) * 4
    } else {
        field * 4
    }
}

/// Bits 27..0 with the two lowest cleared.
pub fn get_frame_size(instruction: u32) -> (size: i32)
    ensures
        size == frame_size(instruction),
        0 <= size < 0x1000_0000,
        size % 4 == 0,
{
    assert(instruction & 0x0fff_fffc == 4 * (instruction / 4 % 0x400_0000)) by (bit_vector);
    (instruction & 0x0fff_fffc) as i32
}

/// Bits 24..0, signed.
pub fn get_branch_offset25(instruction: u32) -> (offset: i32)
    ensures
        offset == branch_offset25(instruction),
        -0x100_0000 <= offset < 0x100_0000,
{
    assert(instruction & 0x01ff_ffff == instruction % 0x200_0000) by (bit_vector);
    let field: i32 = (instruction & 0x01ff_ffff) as i32;
    if field >= 0x0100_0000 {
        field - 0x0200_0000
    } else {
        field
    }
}

/// Bits 27..25.
pub fn get_binary_condition(instruction: u32) -> (condition: u32)
    ensures
        condition == binary_condition(instruction),
        condition < 8,
{
    assert((instruction >> 25) & 7 == instruction / 0x200_0000 % 8) by (bit_vector);
    (instruction >> 25) & 7
}

/// Bits 26..25.
pub fn get_unary_condition(instruction: u32) -> (condition: u32)
    ensures
        condition == unary_condition(instruction),
        condition < 4,
{
    assert((instruction >> 25) & 3 == instruction / 0x200_0000 % 4) by (bit_vector);
    (instruction >> 25) & 3
}

/// Bits 1..0.
pub fn get_print_format(instruction: u32) -> (format: u32)
    ensures
        format == print_format(instruction),
        format < 4,
{
    assert(instruction & 3 == instruction % 4) by (bit_vector);
    instruction & 3
}

/// Bits 23..12 as a signed count of words, in bytes.
pub fn get_swap_from(instruction: u32) -> (offset: i32)
    ensures
        offset == swap_from(instruction),
        -0x2000 <= offset < 0x2000,
        offset % 4 == 0,
{
    assert((instruction >> 12) & 0xfff == instruction / 0x1000 % 0x1000) by (bit_vector);
    let field: i32 = ((instruction >> 12) & 0xfff) as i32;
    if field >= 0x800 {
        (field - 0x1000) * 4
    } else {
        field * 4
    }
}

/// Bits 11..0 as a signed count of words, in bytes.
pub fn get_swap_to(instruction: u32) -> (offset: i32)
    ensures
        offset == swap_to(instruction),
        -0x2000 <= offset < 0x2000,
        offset % 4 == 0,
{
    assert(instruction & 0xfff == instruction % 0x1000) by (bit_vector);
    let field: i32 = (instruction & 0xfff) as i32;
    if field >= 0x800 {
        (field - 0x1000) * 4
    } else {
        field * 4
    }
}

/// Bits 23..0.
pub fn get_string_limit(instruction: u32) -> (limit: usize)
    ensures
        limit == string_limit(instruction),
{
    assert(instruction & 0x00ff_ffff == instruction % 0x100_0000) by (bit_vector);
    (instruction & 0x00ff_ffff) as usize
}

} // verus!
