//! The instructions, the dispatch on the instruction word, and the loop that
//! fetches and executes.
//!
//! An instruction that fails leaves the machine as it was.

use vstd::prelude::*;
use crate::arith::{binary_operation, unary_operation};
use crate::chunks::{chunks, decode, encode};
use crate::decode::{
    get_binary_condition,
    get_branch_offset25,
    get_frame_size,
    get_operand28,
    get_print_format,
    get_signed_operand28,
    get_string_limit,
    get_sub_opcode,
    get_swap_from,
    get_swap_to,
    get_unary_condition,
    get_word_offset26,
    opcode,
    print_format,
};
use crate::error::VmError;
use crate::laws::{lemma_push_pop_round_trip, lemma_push_words_layout};
use crate::machine::VirtualMachine;
use crate::parse::{parse_line, trim};
use crate::report::{
    append_memory_listing,
    append_pointer_listing,
    append_stack_listing,
    memory_listing,
    pointer_listing,
    stack_listing,
};
use crate::state::{follows, MEMORY_SIZE};
use crate::text::{format_word, formatted, NEWLINE};
use crate::word::{signed, to_signed};

verus! {

impl VirtualMachine {
    /// `exit`: halts with the whole instruction word as the exit code.
    pub fn exit(&mut self, instruction: u32) -> (result: Result<(), VmError>)
        requires
            old(self).wf(),
        ensures
            final(self).wf(),
            follows(old(self)@, old(self)@.exit(instruction), result, final(self)@),
    {
        self.halt(signed(instruction));
        Ok(())
    }

    /// `swap`: exchanges the two words at the given offsets from the top of
    /// the stack.
    pub fn swap(&mut self, instruction: u32) -> (result: Result<(), VmError>)
        requires
            old(self).wf(),
        ensures
            final(self).wf(),
            follows(old(self)@, old(self)@.swap(instruction), result, final(self)@),
    {
        let first: i32 = self.stack_pointer() + get_swap_from(instruction);
        let second: i32 = self.stack_pointer() + get_swap_to(instruction);
        if first < 0 || first > MEMORY_SIZE as i32 - 4 || second < 0 || second > MEMORY_SIZE as i32
            - 4 {
            return Err(VmError::OutOfBounds);
        }
        self.exchange(first as usize, second as usize);
        Ok(())
    }

    /// `push`: pushes the signed immediate.
    pub fn push(&mut self, instruction: u32) -> (result: Result<(), VmError>)
        requires
            old(self).wf(),
        ensures
            final(self).wf(),
            follows(old(self)@, old(self)@.push(instruction), result, final(self)@),
    {
        self.push_int_onto_stack(get_signed_operand28(instruction))
    }

    /// `pop`: drops the given number of bytes from the stack, or what there
    /// is of them.
    pub fn pop(&mut self, instruction: u32) -> (result: Result<(), VmError>)
        requires
            old(self).wf(),
        ensures
            final(self).wf(),
            follows(old(self)@, old(self)@.pop(instruction), result, final(self)@),
    {
        let offset: u32 = get_operand28(instruction);
        if offset % 4 != 0 {
            return Err(VmError::BadInstruction);
        }
        let new_stack_pointer: i32 = self.stack_pointer() + offset as i32;
        if new_stack_pointer > MEMORY_SIZE as i32 {
            self.set_stack_pointer(MEMORY_SIZE as i32);
        } else {
            self.set_stack_pointer(new_stack_pointer);
        }
        Ok(())
    }

    /// `call`: pushes the address of the instruction behind this one and
    /// jumps.
    pub fn call(&mut self, instruction: u32) -> (result: Result<(), VmError>)
        requires
            old(self).wf(),
        ensures
            final(self).wf(),
            follows(old(self)@, old(self)@.call(instruction), result, final(self)@),
    {
        let return_address: i32 = self.program_counter().wrapping_add(4);
        self.push_int_onto_stack(return_address)?;
        self.jump(get_word_offset26(instruction));
        Ok(())
    }

    /// `ret`: drops a frame of the given size, pops the return address and
    /// continues there.
    pub fn ret(&mut self, instruction: u32) -> (result: Result<(), VmError>)
        requires
            old(self).wf(),
        ensures
            final(self).wf(),
            follows(old(self)@, old(self)@.ret(instruction), result, final(self)@),
    {
        let frame: i32 = get_frame_size(instruction);
        let base: i32 = self.stack_pointer() + frame;
        if base > MEMORY_SIZE as i32 - 4 {
            return Err(VmError::StackEmpty);
        }
        let return_address: i32 = signed(self.peek_int_from_stack(frame)?);
        self.set_stack_pointer(base + 4);
        self.jump_to(return_address);
        Ok(())
    }

    /// `goto`: jumps.
    pub fn goto(&mut self, instruction: u32) -> (result: Result<(), VmError>)
        requires
            old(self).wf(),
        ensures
            final(self).wf(),
            follows(old(self)@, old(self)@.goto(instruction), result, final(self)@),
    {
        self.jump(get_word_offset26(instruction));
        Ok(())
    }

    /// The two-operand branch: compares the word below the top, to the left,
    /// with the top, to the right, and jumps if the condition holds.
    pub fn binary_if(&mut self, instruction: u32) -> (result: Result<(), VmError>)
        requires
            old(self).wf(),
        ensures
            final(self).wf(),
            follows(old(self)@, old(self)@.binary_if(instruction), result, final(self)@),
    {
        let lhs: i32 = signed(self.peek_int_from_stack(4)?);
        let rhs: i32 = signed(self.peek_int_from_stack(0)?);
        let holds: bool = match get_binary_condition(instruction) {
            0 => lhs == rhs,
            1 => lhs != rhs,
            2 => lhs < rhs,
            3 => lhs > rhs,
            4 => lhs <= rhs,
            5 => lhs >= rhs,
            _ => {
                return Err(VmError::BadInstruction);
            },
        };
        if holds {
            self.jump(get_branch_offset25(instruction));
        }
        Ok(())
    }

    /// The one-operand branch: jumps if the condition holds of the top of the
    /// stack.
    pub fn unary_if(&mut self, instruction: u32) -> (result: Result<(), VmError>)
        requires
            old(self).wf(),
        ensures
            final(self).wf(),
            follows(old(self)@, old(self)@.unary_if(instruction), result, final(self)@),
    {
        let operand: i32 = signed(self.peek_int_from_stack(0)?);
        let holds: bool = match get_unary_condition(instruction) {
            0 => operand == 0,
            1 => operand != 0,
            2 => operand < 0,
            _ => operand > 0,
        };
        if holds {
            self.jump(get_branch_offset25(instruction));
        }
        Ok(())
    }

    /// `dup`: pushes a copy of the word at the given offset from the top of
    /// the stack.
    pub fn dup(&mut self, instruction: u32) -> (result: Result<(), VmError>)
        requires
            old(self).wf(),
        ensures
            final(self).wf(),
            follows(old(self)@, old(self)@.dup(instruction), result, final(self)@),
    {
        let word: u32 = self.peek_int_from_stack(get_signed_operand28(instruction))?;
        self.push_int_onto_stack(signed(word))
    }

    /// The two-operand instructions: pops the right operand, then the left
    /// one, and pushes the result, which is also returned.
    pub fn binary_arithmetic(&mut self, instruction: u32) -> (result: Result<i32, VmError>)
        requires
            old(self).wf(),
        ensures
            final(self).wf(),
            match old(self)@.binary_arithmetic(instruction) {
                Ok(next) => final(self)@ == next && result == Ok::<i32, VmError>(
                    to_signed(next.word_at(next.sp)),
                ),
                Err(e) => result == Err::<i32, VmError>(e) && final(self)@ == old(self)@,
            },
    {
        let right: i32 = signed(self.peek_int_from_stack(0)?);
        let left: i32 = signed(self.peek_int_from_stack(4)?);
        let value: i32 = binary_operation(get_sub_opcode(instruction), left, right)?;
        let _ = self.pop_int_from_stack();
        let _ = self.pop_int_from_stack();
        proof {
            lemma_push_pop_round_trip(self@, value);
        }
        let _ = self.push_int_onto_stack(value);
        Ok(value)
    }

    /// The one-operand instructions: pops the operand and pushes the result.
    pub fn unary_arithmetic(&mut self, instruction: u32) -> (result: Result<(), VmError>)
        requires
            old(self).wf(),
        ensures
            final(self).wf(),
            follows(old(self)@, old(self)@.unary_arithmetic(instruction), result, final(self)@),
    {
        let operand: i32 = signed(self.peek_int_from_stack(0)?);
        let value: i32 = unary_operation(get_sub_opcode(instruction), operand)?;
        let _ = self.pop_int_from_stack();
        self.push_int_onto_stack(value)
    }

    /// `input`: reads a line and pushes the number on it. Where no line is
    /// left, the line is empty, as at the end of the input.
    pub fn input(&mut self) -> (result: Result<(), VmError>)
        requires
            old(self).wf(),
        ensures
            final(self).wf(),
            follows(old(self)@, old(self)@.input(), result, final(self)@),
    {
        let n: i32 = match parse_line(self.next_line()) {
            Some(n) => n,
            None => {
                return Err(VmError::BadInput);
            },
        };
        if self.stack_pointer() < 4 {
            return Err(VmError::OutOfMemory);
        }
        self.discard_line();
        self.push_int_onto_stack(n)
    }

    /// `stinput`: reads a line and pushes it as a string, without the white
    /// space at its ends and cut down to the length that the instruction
    /// allows. Where no line is left, the line is empty.
    pub fn stinput(&mut self, instruction: u32) -> (result: Result<(), VmError>)
        requires
            old(self).wf(),
        ensures
            final(self).wf(),
            follows(old(self)@, old(self)@.stinput(instruction), result, final(self)@),
    {
        let limit: usize = get_string_limit(instruction);
        let line: &[u8] = self.next_line();
        let (start, end) = trim(line);
        let length: usize = if end - start > limit {
            limit
        } else {
            end - start
        };
        let text: &[u8] = vstd::slice::slice_subrange(line, start, start + length);
        assert(text@ =~= old(self)@.string_read(instruction));
        let ghost expected = old(self)@.without_line();
        if length / 3 + 1 > self.stack_pointer() as usize / 4 {
            proof {
                lemma_push_words_layout(expected, chunks(text@));
            }
            return Err(VmError::OutOfMemory);
        }
        let words: Vec<u32> = encode(text);
        self.discard_line();
        let mut k: usize = words.len();
        assert(words@.take(k as int) =~= words@);
        while k > 0
            invariant
                self.wf(),
                k <= words@.len(),
                4 * k <= self@.sp,
                expected.push_words(words@) == self@.push_words(words@.take(k as int)),
            decreases k,
        {
            k = k - 1;
            proof {
                let longer = words@.take(k + 1);
                assert(longer.last() == words@[k as int]);
                assert(longer.drop_last() =~= words@.take(k as int));
            }
            let _ = self.push_int_onto_stack(signed(words[k]));
        }
        assert(words@.take(0) =~= Seq::<u32>::empty());
        Ok(())
    }

    /// `print`: writes the word at the given offset from the top of the
    /// stack in the given format, and ends the line.
    pub fn print(&mut self, instruction: u32) -> (result: Result<(), VmError>)
        requires
            old(self).wf(),
        ensures
            final(self).wf(),
            follows(old(self)@, old(self)@.print(instruction), result, final(self)@),
    {
        let value: i32 = signed(self.peek_int_from_stack(get_word_offset26(instruction))?);
        let mut text: Vec<u8> = format_word(value, get_print_format(instruction))?;
        text.push(NEWLINE);
        assert(text@ =~= formatted(value, print_format(instruction)) + seq![NEWLINE]);
        self.write(text.as_slice());
        Ok(())
    }

    /// `dump`: lists the stack.
    pub fn dump(&mut self) -> (result: Result<(), VmError>)
        requires
            old(self).wf(),
        ensures
            final(self).wf(),
            follows(old(self)@, old(self)@.dump(), result, final(self)@),
    {
        let mut text: Vec<u8> = Vec::new();
        append_stack_listing(&mut text, self.memory(), self.stack_pointer() as usize);
        assert(text@ =~= stack_listing(self@.memory, self@.sp));
        self.write(text.as_slice());
        Ok(())
    }

    /// `stprint`: writes the string at the given offset from the top of the
    /// stack.
    pub fn stprint(&mut self, instruction: u32) -> (result: Result<(), VmError>)
        requires
            old(self).wf(),
        ensures
            final(self).wf(),
            follows(old(self)@, old(self)@.stprint(instruction), result, final(self)@),
    {
        let start: i32 = self.stack_pointer() + get_signed_operand28(instruction);
        if start < 0 || start >= MEMORY_SIZE as i32 {
            return Err(VmError::OutOfBounds);
        }
        let text: Vec<u8> = decode(self.memory(), start as usize);
        self.write(text.as_slice());
        Ok(())
    }

    /// Writes out the memory listing.
    pub fn print_stack(&mut self)
        requires
            old(self).wf(),
        ensures
            final(self).wf(),
            final(self)@ == old(self)@.write(memory_listing(old(self)@.memory)),
    {
        let mut text: Vec<u8> = Vec::new();
        append_memory_listing(&mut text, self.memory());
        assert(text@ =~= memory_listing(self@.memory));
        self.write(text.as_slice());
    }

    /// Writes out the stack pointer and the program counter.
    pub fn print_vm_info(&mut self)
        ensures
            old(self).wf() ==> final(self).wf(),
            final(self)@ == old(self)@.write(
                pointer_listing(old(self)@.sp, old(self)@.pc as int),
            ),
    {
        let mut text: Vec<u8> = Vec::new();
        append_pointer_listing(&mut text, self.stack_pointer(), self.program_counter());
        assert(text@ =~= pointer_listing(self@.sp, self@.pc as int));
        self.write(text.as_slice());
    }

    /// `debug`: lists the memory and the two pointers.
    pub fn debug(&mut self) -> (result: Result<(), VmError>)
        requires
            old(self).wf(),
        ensures
            final(self).wf(),
            follows(old(self)@, old(self)@.debug(), result, final(self)@),
    {
        self.print_stack();
        self.print_vm_info();
        Ok(())
    }

    /// The opcode of an instruction: its four most significant bits.
    pub fn get_op_code(instruction: u32) -> (op: u32)
        ensures
            op == opcode(instruction),
            op < 16,
    {
        assert(instruction >> 28 == instruction / 0x1000_0000) by (bit_vector);
        instruction >> 28
    }

    /// Executes an instruction: finds the handler by opcode and sub-opcode
    /// and hands the instruction word to it.
    pub fn execute_instruction(&mut self, instruction: u32) -> (result: Result<(), VmError>)
        requires
            old(self).wf(),
        ensures
            final(self).wf(),
            follows(old(self)@, old(self)@.execute(instruction), result, final(self)@),
    {
        match VirtualMachine::get_op_code(instruction) {
            0 => match get_sub_opcode(instruction) {
                0 => self.exit(instruction),
                1 => self.swap(instruction),
                2 => Ok(()),
                4 => self.input(),
                5 => self.stinput(instruction),
                15 => self.debug(),
                _ => Err(VmError::BadInstruction),
            },
            1 => self.pop(instruction),
            2 => match self.binary_arithmetic(instruction) {
                Ok(_) => Ok(()),
                Err(e) => Err(e),
            },
            3 => self.unary_arithmetic(instruction),
            4 => self.stprint(instruction),
            5 => self.call(instruction),
            6 => self.ret(instruction),
            7 => self.goto(instruction),
            8 => self.binary_if(instruction),
            9 => self.unary_if(instruction),
            12 => self.dup(instruction),
            13 => self.print(instruction),
            14 => self.dump(),
            15 => self.push(instruction),
            _ => Err(VmError::BadInstruction),
        }
    }

    /// One turn of the loop: fetches the instruction at the program counter,
    /// executes it and advances the program counter.
    pub fn step(&mut self) -> (result: Result<(), VmError>)
        requires
            old(self).wf(),
        ensures
            final(self).wf(),
            follows(old(self)@, old(self)@.step(), result, final(self)@),
    {
        if !self.can_fetch() {
            return Err(VmError::Fatal);
        }
        let instruction: u32 = self.get_next_instruction();
        self.execute_instruction(instruction)?;
        self.increment_program_counter();
        Ok(())
    }

    /// Whether the next instruction reads a line of input and none is there.
    pub fn awaits_input(&self) -> (waiting: bool)
        requires
            self.wf(),
        ensures
            waiting == self@.awaits_input(),
    {
        if self.pending_lines() > 0 || !self.can_fetch() {
            return false;
        }
        let instruction: u32 = self.get_next_instruction();
        VirtualMachine::get_op_code(instruction) == 0 && (get_sub_opcode(instruction) == 4
            || get_sub_opcode(instruction) == 5)
    }

    /// Runs the program until it halts, an instruction fails, the next
    /// instruction awaits a line of input, or `budget` instructions have been
    /// executed. Returns the exit code if the program has halted, and
    /// nothing if the run stopped before that and can be taken up again.
    pub fn run(&mut self, budget: u64) -> (result: Result<Option<i32>, VmError>)
        requires
            old(self).wf(),
        ensures
            final(self).wf(),
            final(self)@ == old(self)@.run(budget as nat).state,
            result == old(self)@.run(budget as nat).outcome,
    {
        let mut left: u64 = budget;
        loop
            invariant
                self.wf(),
                self@.run(left as nat) == old(self)@.run(budget as nat),
            decreases left,
        {
            if self.halted() {
                return Ok(Some(self.exit_code()));
            }
            if left == 0 || self.awaits_input() {
                return Ok(None);
            }
            self.step()?;
            left = left - 1;
        }
    }
}

} // verus!
