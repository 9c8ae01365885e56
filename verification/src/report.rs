//! The diagnostic listings: the words on the stack, and the whole memory with
//! the two pointers.

use vstd::prelude::*;
use vstd::string::StringSliceAdditionalSpecFns;
use crate::text::{append_decimal, append_padded_digits, decimal, padded_digits, NEWLINE};
use crate::word::{pack_be, word_from_be};

verus! {

/// One line of the stack listing: the address in four hexadecimal digits, a
/// colon and a space, and the word in eight.
pub open spec fn stack_line(address: int, word: u32) -> Seq<u8> {
    padded_digits(address as nat, 16, 4) + seq![':' as u8, ' ' as u8] + padded_digits(
        word as nat,
        16,
        8,
    ) + seq![NEWLINE]
}

/// The stack listing: one line for each whole word from `from` to the end of
/// the memory.
pub open spec fn stack_listing(memory: Seq<u8>, from: int) -> Seq<u8>
    decreases memory.len() - from,
{
    if from < 0 || from + 4 > memory.len() {
        Seq::empty()
    } else {
        stack_line(from, word_from_be(memory.subrange(from, from + 4))) + stack_listing(
            memory,
            from + 4,
        )
    }
}

/// What the memory listing shows before the byte at `index`: nothing, unless
/// the byte starts a row of sixteen. A row starts with its address in four
/// hexadecimal digits between a space and a bar, and each row but the first
/// starts on a new line.
pub open spec fn row_head(index: int) -> Seq<u8> {
    if index % 16 != 0 {
        Seq::empty()
    } else if index == 0 {
        seq![' ' as u8] + padded_digits(index as nat, 16, 4) + seq![' ' as u8, '|' as u8, ' ' as u8]
    } else {
        seq![NEWLINE, ' ' as u8] + padded_digits(index as nat, 16, 4) + seq![
            ' ' as u8,
            '|' as u8,
            ' ' as u8,
        ]
    }
}

/// What the memory listing shows for the byte at `index`: the start of a row
/// if it starts one, then two spaces and the byte in two hexadecimal digits.
pub open spec fn memory_cell(memory: Seq<u8>, index: int) -> Seq<u8> {
    row_head(index) + seq![' ' as u8, ' ' as u8] + padded_digits(memory[index] as nat, 16, 2)
}

/// The memory listing for the first `count` bytes.
pub open spec fn memory_cells(memory: Seq<u8>, count: nat) -> Seq<u8>
    decreases count,
{
    if count == 0 {
        Seq::empty()
    } else {
        memory_cells(memory, (count - 1) as nat) + memory_cell(memory, count - 1)
    }
}

/// The memory listing: every byte of the memory, sixteen to a row, and the
/// end of the last row.
pub open spec fn memory_listing(memory: Seq<u8>) -> Seq<u8> {
    memory_cells(memory, memory.len()) + seq![NEWLINE]
}

/// A line for the stack pointer and a line for the program counter, both in
/// decimal.
pub open spec fn pointer_listing(sp: int, pc: int) -> Seq<u8> {
    " - stack pointer:   ".spec_bytes() + decimal(sp) + seq![NEWLINE]
        + " - program counter: ".spec_bytes() + decimal(pc) + seq![NEWLINE]
}

/// Appends one line of the stack listing.
fn append_stack_line(out: &mut Vec<u8>, address: usize, word: u32)
    ensures
        final(out)@ == old(out)@ + stack_line(address as int, word),
{
    let mut line: Vec<u8> = Vec::new();
    append_padded_digits(&mut line, address as u64, 16, 4);
    line.push(':' as u8);
    line.push(' ' as u8);
    append_padded_digits(&mut line, word as u64, 16, 8);
    line.push(NEWLINE);
    assert(line@ =~= stack_line(address as int, word));
    out.extend_from_slice(line.as_slice());
    assert(final(out)@ =~= old(out)@ + line@);
}

/// Appends the stack listing from `from` on.
pub fn append_stack_listing(out: &mut Vec<u8>, memory: &[u8], from: usize)
    ensures
        final(out)@ == old(out)@ + stack_listing(memory@, from as int),
{
    let len: usize = memory.len();
    let mut at: usize = from;
    while at <= len && len - at >= 4
        invariant
            len == memory@.len(),
            from <= at,
            old(out)@ + stack_listing(memory@, from as int) == out@ + stack_listing(
                memory@,
                at as int,
            ),
        decreases len - at,
    {
        let ghost before = out@;
        let word: u32 = pack_be(memory[at], memory[at + 1], memory[at + 2], memory[at + 3]);
        assert(memory@.subrange(at as int, at + 4) =~= seq![
            memory@[at as int],
            memory@[at + 1],
            memory@[at + 2],
            memory@[at + 3],
        ]);
        append_stack_line(out, at, word);
        assert(before + stack_listing(memory@, at as int) =~= out@ + stack_listing(
            memory@,
            at + 4,
        ));
        at = at + 4;
    }
    assert(stack_listing(memory@, at as int) =~= Seq::<u8>::empty());
    assert(out@ =~= old(out)@ + stack_listing(memory@, from as int));
}

/// Appends what the memory listing shows before the byte at `index`.
fn append_row_head(out: &mut Vec<u8>, index: usize)
    ensures
        final(out)@ == old(out)@ + row_head(index as int),
{
    if index % 16 == 0 {
        let mut head: Vec<u8> = Vec::new();
        if index != 0 {
            head.push(NEWLINE);
        }
        head.push(' ' as u8);
        let ghost start = head@;
        append_padded_digits(&mut head, index as u64, 16, 4);
        let ghost address = head@;
        head.push(' ' as u8);
        head.push('|' as u8);
        head.push(' ' as u8);
        assert(head@ =~= address + seq![' ' as u8, '|' as u8, ' ' as u8]);
        assert(head@ =~= row_head(index as int));
        out.extend_from_slice(head.as_slice());
        assert(final(out)@ =~= old(out)@ + head@);
    } else {
        assert(final(out)@ =~= old(out)@ + row_head(index as int));
    }
}

/// Appends what the memory listing shows for the byte at `index`.
fn append_memory_cell(out: &mut Vec<u8>, memory: &[u8], index: usize)
    requires
        index < memory@.len(),
    ensures
        final(out)@ == old(out)@ + memory_cell(memory@, index as int),
{
    append_row_head(out, index);
    out.push(' ' as u8);
    out.push(' ' as u8);
    let ghost before = out@;
    append_padded_digits(out, memory[index] as u64, 16, 2);
    assert(before =~= old(out)@ + row_head(index as int) + seq![' ' as u8, ' ' as u8]);
    assert(final(out)@ =~= old(out)@ + memory_cell(memory@, index as int));
}

/// Appends the memory listing.
pub fn append_memory_listing(out: &mut Vec<u8>, memory: &[u8])
    ensures
        final(out)@ == old(out)@ + memory_listing(memory@),
{
    let len: usize = memory.len();
    let mut i: usize = 0;
    while i < len
        invariant
            i <= len,
            len == memory@.len(),
            out@ == old(out)@ + memory_cells(memory@, i as nat),
        decreases len - i,
    {
        append_memory_cell(out, memory, i);
        assert(out@ =~= old(out)@ + memory_cells(memory@, (i + 1) as nat));
        i = i + 1;
    }
    out.push(NEWLINE);
    assert(out@ =~= old(out)@ + memory_listing(memory@));
}

/// Appends the lines for the two pointers.
pub fn append_pointer_listing(out: &mut Vec<u8>, sp: i32, pc: i32)
    ensures
        final(out)@ == old(out)@ + pointer_listing(sp as int, pc as int),
{
    out.extend_from_slice(" - stack pointer:   ".as_bytes());
    append_decimal(out, sp);
    out.push(NEWLINE);
    out.extend_from_slice(" - program counter: ".as_bytes());
    append_decimal(out, pc);
    out.push(NEWLINE);
    assert(out@ =~= old(out)@ + pointer_listing(sp as int, pc as int));
}

} // verus!
