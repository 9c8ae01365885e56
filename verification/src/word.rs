//! 32-bit words: how they lie in memory and how they are read as signed
//! numbers.

use vstd::prelude::*;

verus! {

/// The word as a two's-complement number.
pub open spec fn to_signed(word: u32) -> i32 {
    if word >= 0x8000_0000 {
        (word - 0x1_0000_0000) as i32
    } else {
        word as i32
    }
}

/// The bit pattern of a two's-complement number.
pub open spec fn to_unsigned(value: i32) -> u32 {
    if value < 0 {
        (value + 0x1_0000_0000) as u32
    } else {
        value as u32
    }
}

/// The number in `[-2^31, 2^31)` that differs from `x` by a multiple of `2^32`.
pub open spec fn wrap(x: int) -> i32 {
    let m = x % 0x1_0000_0000;
    if m >= 0x8000_0000 {
        (m - 0x1_0000_0000) as i32
    } else {
        m as i32
    }
}

/// The word whose four bytes, most significant first, are `bytes`.
pub open spec fn word_from_be(bytes: Seq<u8>) -> u32
    recommends
        bytes.len() == 4,
{
    (bytes[0] * 0x100_0000 + bytes[1] * 0x1_0000 + bytes[2] * 0x100 + bytes[3]) as u32
}

/// The word whose four bytes, least significant first, are `bytes`.
pub open spec fn word_from_le(bytes: Seq<u8>) -> u32
    recommends
        bytes.len() == 4,
{
    (bytes[3] * 0x100_0000 + bytes[2] * 0x1_0000 + bytes[1] * 0x100 + bytes[0]) as u32
}

/// The four bytes of a word, most significant first.
pub open spec fn word_to_be(word: u32) -> Seq<u8> {
    seq![
        (word / 0x100_0000) as u8,
        (word / 0x1_0000 % 0x100) as u8,
        (word / 0x100 % 0x100) as u8,
        (word % 0x100) as u8,
    ]
}

/// Reads a word as a two's-complement number.
pub fn signed(word: u32) -> (value: i32)
    ensures
        value == to_signed(word),
{
    if word >= 0x8000_0000 {
        (word as i64 - 0x1_0000_0000) as i32
    } else {
        word as i32
    }
}

/// The bit pattern of a two's-complement number.
pub fn unsigned(value: i32) -> (word: u32)
    ensures
        word == to_unsigned(value),
{
    if value < 0 {
        (value as i64 + 0x1_0000_0000) as u32
    } else {
        value as u32
    }
}

/// Packs four bytes, most significant first.
pub fn pack_be(b0: u8, b1: u8, b2: u8, b3: u8) -> (word: u32)
    ensures
        word == word_from_be(seq![b0, b1, b2, b3]),
{
    let word = (b0 as u32) << 24 | (b1 as u32) << 16 | (b2 as u32) << 8 | (b3 as u32);
    assert((b0 as u32) << 24 | (b1 as u32) << 16 | (b2 as u32) << 8 | (b3 as u32) == b0
        * 0x100_0000 + b1 * 0x1_0000 + b2 * 0x100 + b3) by (bit_vector);
    word
}

/// Packs four bytes, least significant first.
pub fn pack_le(b0: u8, b1: u8, b2: u8, b3: u8) -> (word: u32)
    ensures
        word == word_from_le(seq![b0, b1, b2, b3]),
{
    let word = (b0 as u32) | (b1 as u32) << 8 | (b2 as u32) << 16 | (b3 as u32) << 24;
    assert((b0 as u32) | (b1 as u32) << 8 | (b2 as u32) << 16 | (b3 as u32) << 24 == b3
        * 0x100_0000 + b2 * 0x1_0000 + b1 * 0x100 + b0) by (bit_vector);
    word
}

/// The byte of `word` that lies `index` places after its most significant byte.
pub fn be_byte(word: u32, index: usize) -> (byte: u8)
    requires
        index < 4,
    ensures
        byte == word_to_be(word)[index as int],
{
    assert((word >> 24) == word / 0x100_0000 && (word >> 24) < 0x100) by (bit_vector);
    assert((word >> 16) & 0xff == word / 0x1_0000 % 0x100) by (bit_vector);
    assert((word >> 8) & 0xff == word / 0x100 % 0x100) by (bit_vector);
    assert(word & 0xff == word % 0x100) by (bit_vector);
    if index == 0 {
        (word >> 24) as u8
    } else if index == 1 {
        ((word >> 16) & 0xff) as u8
    } else if index == 2 {
        ((word >> 8) & 0xff) as u8
    } else {
        (word & 0xff) as u8
    }
}

/// Reading back the bytes of a word gives the word.
pub proof fn lemma_be_round_trip(word: u32)
    ensures
        word_to_be(word).len() == 4,
        word_from_be(word_to_be(word)) == word,
{
    assert(word / 0x100_0000 < 0x100 && (word / 0x100_0000) * 0x100_0000 + (word / 0x1_0000
        % 0x100) * 0x1_0000 + (word / 0x100 % 0x100) * 0x100 + word % 0x100 == word)
        by (bit_vector);
}

/// Four bytes are the bytes of the word that they make.
pub proof fn lemma_be_bytes_round_trip(bytes: Seq<u8>)
    requires
        bytes.len() == 4,
    ensures
        word_to_be(word_from_be(bytes)) == bytes,
{
    let b0 = bytes[0];
    let b1 = bytes[1];
    let b2 = bytes[2];
    let b3 = bytes[3];
    let word = word_from_be(bytes);
    assert(word == b0 * 0x100_0000 + b1 * 0x1_0000 + b2 * 0x100 + b3);
    assert(word / 0x100_0000 == b0 && word / 0x1_0000 % 0x100 == b1 && word / 0x100 % 0x100 == b2
        && word % 0x100 == b3) by (bit_vector)
        requires
            word == b0 * 0x100_0000 + b1 * 0x1_0000 + b2 * 0x100 + b3,
    ;
    assert(word_to_be(word) =~= bytes);
}

/// Bytes that make one word read most significant first make the word with
/// the opposite order of bytes read least significant first: a data word and
/// an instruction word do not lie in memory the same way.
pub proof fn lemma_byte_orders_are_opposite(bytes: Seq<u8>)
    requires
        bytes.len() == 4,
    ensures
        word_from_le(bytes) == word_from_be(bytes.reverse()),
{
}

/// A number survives the passage through its bit pattern.
pub proof fn lemma_signed_round_trip(value: i32)
    ensures
        to_signed(to_unsigned(value)) == value,
{
}

} // verus!
