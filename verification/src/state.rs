//! What the machine is and what each instruction does to it, as mathematics.
//!
//! [`State`] holds the memory, the registers, the lines of input that have
//! not been read yet and what has been written out. Every instruction is a
//! function from a state and an instruction word to the state that follows
//! or to an error; [`State::step`] fetches and executes one instruction and
//! [`State::run`] repeats that.

use vstd::prelude::*;
use crate::arith::{binop_result, unop_result};
use crate::chunks::{chunks, string_at, truncated};
use crate::decode::{
    binary_condition,
    branch_offset25,
    frame_size,
    opcode,
    operand28,
    print_format,
    signed_operand28,
    string_limit,
    sub_opcode,
    swap_from,
    swap_to,
    unary_condition,
    word_offset26,
};
use crate::error::VmError;
use crate::parse::{parsed_line, trimmed};
use crate::report::{memory_listing, pointer_listing, stack_listing};
use crate::text::{formatted, NEWLINE};
use crate::word::{to_signed, to_unsigned, word_from_be, word_from_le, word_to_be, wrap};

verus! {

/// The size of the memory in bytes.
pub const MEMORY_SIZE: usize = 4096;

/// The size of the header of a program image in bytes.
pub const HEADER_SIZE: usize = 4;

/// The header of a program image.
pub open spec fn magic() -> Seq<u8> {
    seq![0xde, 0xad, 0xbe, 0xef]
}

/// Whether the bytes are a program image: the header, then at most as many
/// bytes as the memory holds.
pub open spec fn is_image(image: Seq<u8>) -> bool {
    HEADER_SIZE <= image.len() <= HEADER_SIZE + MEMORY_SIZE && image.take(HEADER_SIZE as int)
        == magic()
}

/// The memory with the four bytes of `word` at `address`, most significant
/// first.
pub open spec fn write_word(memory: Seq<u8>, address: int, word: u32) -> Seq<u8> {
    memory.update(address, word_to_be(word)[0]).update(address + 1, word_to_be(word)[1]).update(
        address + 2,
        word_to_be(word)[2],
    ).update(address + 3, word_to_be(word)[3])
}

/// The memory with the words at `first` and `second` exchanged. The two are
/// the same word or do not overlap.
pub open spec fn exchange_words(memory: Seq<u8>, first: int, second: int) -> Seq<u8> {
    Seq::new(
        memory.len(),
        |i: int|
            if first <= i < first + 4 {
                memory[i - first + second]
            } else if second <= i < second + 4 {
                memory[i - second + first]
            } else {
                memory[i]
            },
    )
}

/// Whether the condition `condition` of a two-operand branch holds: 0 equal,
/// 1 not equal, 2 less, 3 greater, 4 less or equal, 5 greater or equal.
pub open spec fn binary_condition_holds(condition: u32, left: i32, right: i32) -> bool
    recommends
        condition <= 5,
{
    if condition == 0 {
        left == right
    } else if condition == 1 {
        left != right
    } else if condition == 2 {
        left < right
    } else if condition == 3 {
        left > right
    } else if condition == 4 {
        left <= right
    } else {
        left >= right
    }
}

/// Whether the condition `condition` of a one-operand branch holds: 0 zero,
/// 1 not zero, 2 negative, 3 positive.
pub open spec fn unary_condition_holds(condition: u32, operand: i32) -> bool
    recommends
        condition <= 3,
{
    if condition == 0 {
        operand == 0
    } else if condition == 1 {
        operand != 0
    } else if condition == 2 {
        operand < 0
    } else {
        operand > 0
    }
}

/// Whether the instruction reads a line of input.
pub open spec fn reads_input(instruction: u32) -> bool {
    opcode(instruction) == 0 && (sub_opcode(instruction) == 4 || sub_opcode(instruction) == 5)
}

/// Whether a machine did what was expected of an instruction: it is in the
/// expected state, or it reports the expected error and is as it was.
pub open spec fn follows(
    before: State,
    expected: Result<State, VmError>,
    result: Result<(), VmError>,
    after: State,
) -> bool {
    match expected {
        Ok(next) => result is Ok && after == next,
        Err(e) => result == Err::<(), VmError>(e) && after == before,
    }
}

/// The machine between two instructions.
#[verifier::ext_equal]
pub struct State {
    /// The memory, which holds both the program and the stack.
    pub memory: Seq<u8>,
    /// The stack pointer: the address of the word on top of the stack.
    pub sp: int,
    /// The program counter: the address of the next instruction.
    pub pc: i32,
    /// The payload of the last `exit` instruction.
    pub exit_code: i32,
    /// Whether an `exit` instruction has been executed.
    pub halted: bool,
    /// The lines of input that no instruction has read yet.
    pub input: Seq<Seq<u8>>,
    /// What the instructions have written and nobody has taken yet.
    pub output: Seq<u8>,
}

/// How a run ends or pauses.
pub struct Run {
    /// The machine as the run leaves it.
    pub state: State,
    /// The exit code if the program has halted, nothing if the run stopped
    /// before that, or the error that ended it.
    pub outcome: Result<Option<i32>, VmError>,
}

impl State {
    /// The memory has its size and the stack pointer lies on a word within
    /// it or just behind it.
    pub open spec fn wf(self) -> bool {
        &&& self.memory.len() == MEMORY_SIZE
        &&& 0 <= self.sp <= MEMORY_SIZE
        &&& self.sp % 4 == 0
    }

    /// The machine that is about to run `program`: the program lies at the
    /// start of the memory, which is otherwise zero, and the stack is empty.
    pub open spec fn initial(program: Seq<u8>) -> State
        recommends
            program.len() <= MEMORY_SIZE,
    {
        State {
            memory: Seq::new(
                MEMORY_SIZE as nat,
                |i: int|
                    if i < program.len() {
                        program[i]
                    } else {
                        0u8
                    },
            ),
            sp: MEMORY_SIZE as int,
            pc: 0,
            exit_code: 0,
            halted: false,
            input: Seq::empty(),
            output: Seq::empty(),
        }
    }

    /// The data word at `address`.
    pub open spec fn word_at(self, address: int) -> u32 {
        word_from_be(self.memory.subrange(address, address + 4))
    }

    /// The instruction at the program counter; fatal if it does not lie
    /// within the memory.
    pub open spec fn fetch(self) -> Result<u32, VmError> {
        if self.pc < 0 || self.pc + 4 > MEMORY_SIZE {
            Err(VmError::Fatal)
        } else {
            Ok(word_from_le(self.memory.subrange(self.pc as int, self.pc + 4)))
        }
    }

    /// Pushes a number.
    pub open spec fn push_word(self, value: i32) -> Result<State, VmError> {
        if self.sp < 4 {
            Err(VmError::OutOfMemory)
        } else {
            Ok(
                State {
                    memory: write_word(self.memory, self.sp - 4, to_unsigned(value)),
                    sp: self.sp - 4,
                    ..self
                },
            )
        }
    }

    /// Pops a word: the state without it, and the word.
    pub open spec fn pop_word(self) -> Result<(State, u32), VmError> {
        if self.sp + 4 > MEMORY_SIZE {
            Err(VmError::StackEmpty)
        } else {
            Ok((State { sp: self.sp + 4, ..self }, self.word_at(self.sp)))
        }
    }

    /// The word that lies `offset` bytes above the top of the stack.
    pub open spec fn peek_word(self, offset: int) -> Result<u32, VmError> {
        if self.sp + offset < 0 || self.sp + offset + 4 > MEMORY_SIZE {
            Err(VmError::StackEmpty)
        } else {
            Ok(self.word_at(self.sp + offset))
        }
    }

    /// Pushes the words, the last one first, so that the first one ends on
    /// top.
    pub open spec fn push_words(self, words: Seq<u32>) -> Result<State, VmError>
        decreases words.len(),
    {
        if words.len() == 0 {
            Ok(self)
        } else {
            match self.push_word(to_signed(words.last())) {
                Ok(next) => next.push_words(words.drop_last()),
                Err(e) => Err(e),
            }
        }
    }

    /// Sets the program counter `displacement` bytes from this instruction,
    /// less the four bytes by which every instruction advances it.
    pub open spec fn jump(self, displacement: int) -> State {
        State { pc: wrap(self.pc + displacement - 4), ..self }
    }

    /// The state with `text` written out.
    pub open spec fn write(self, text: Seq<u8>) -> State {
        State { output: self.output + text, ..self }
    }

    /// The line that the next reading instruction gets: the oldest unread
    /// line, or an empty one if there is none, as at the end of the input.
    pub open spec fn next_line(self) -> Seq<u8> {
        if self.input.len() > 0 {
            self.input[0]
        } else {
            Seq::empty()
        }
    }

    /// The state without the oldest unread line.
    pub open spec fn without_line(self) -> State {
        if self.input.len() > 0 {
            State { input: self.input.skip(1), ..self }
        } else {
            self
        }
    }

    /// `exit`: halts with the whole instruction word as the exit code.
    pub open spec fn exit(self, instruction: u32) -> Result<State, VmError> {
        Ok(State { exit_code: to_signed(instruction), halted: true, ..self })
    }

    /// `swap`: exchanges the two words at the given offsets from the top of
    /// the stack.
    pub open spec fn swap(self, instruction: u32) -> Result<State, VmError> {
        let first = self.sp + swap_from(instruction);
        let second = self.sp + swap_to(instruction);
        if first < 0 || first + 4 > MEMORY_SIZE || second < 0 || second + 4 > MEMORY_SIZE {
            Err(VmError::OutOfBounds)
        } else {
            Ok(State { memory: exchange_words(self.memory, first, second), ..self })
        }
    }

    /// `input`: reads a line and pushes the number on it.
    pub open spec fn input(self) -> Result<State, VmError> {
        match parsed_line(self.next_line()) {
            Some(value) => self.without_line().push_word(value),
            None => Err(VmError::BadInput),
        }
    }

    /// The text that `stinput` stores: the line without the white space at
    /// its ends, cut down to the length that the instruction allows.
    pub open spec fn string_read(self, instruction: u32) -> Seq<u8> {
        truncated(trimmed(self.next_line()), string_limit(instruction))
    }

    /// `stinput`: reads a line and pushes it as a string.
    pub open spec fn stinput(self, instruction: u32) -> Result<State, VmError> {
        self.without_line().push_words(chunks(self.string_read(instruction)))
    }

    /// `push`: pushes the signed immediate.
    pub open spec fn push(self, instruction: u32) -> Result<State, VmError> {
        self.push_word(signed_operand28(instruction) as i32)
    }

    /// `pop`: drops the given number of bytes from the stack, or what there
    /// is of them. The number must be a multiple of four.
    pub open spec fn pop(self, instruction: u32) -> Result<State, VmError> {
        if operand28(instruction) % 4 != 0 {
            Err(VmError::BadInstruction)
        } else if self.sp + operand28(instruction) > MEMORY_SIZE {
            Ok(State { sp: MEMORY_SIZE as int, ..self })
        } else {
            Ok(State { sp: self.sp + operand28(instruction), ..self })
        }
    }

    /// The two-operand instructions: pops the right operand, then the left
    /// one, and pushes the result.
    pub open spec fn binary_arithmetic(self, instruction: u32) -> Result<State, VmError> {
        match self.pop_word() {
            Ok((second, right)) => match second.pop_word() {
                Ok((third, left)) => match binop_result(
                    sub_opcode(instruction),
                    to_signed(left),
                    to_signed(right),
                ) {
                    Ok(value) => third.push_word(value),
                    Err(e) => Err(e),
                },
                Err(e) => Err(e),
            },
            Err(e) => Err(e),
        }
    }

    /// The one-operand instructions: pops the operand and pushes the result.
    pub open spec fn unary_arithmetic(self, instruction: u32) -> Result<State, VmError> {
        match self.pop_word() {
            Ok((second, operand)) => match unop_result(
                sub_opcode(instruction),
                to_signed(operand),
            ) {
                Ok(value) => second.push_word(value),
                Err(e) => Err(e),
            },
            Err(e) => Err(e),
        }
    }

    /// `call`: pushes the address of the instruction behind this one and
    /// jumps.
    pub open spec fn call(self, instruction: u32) -> Result<State, VmError> {
        match self.push_word(wrap(self.pc + 4)) {
            Ok(next) => Ok(next.jump(word_offset26(instruction))),
            Err(e) => Err(e),
        }
    }

    /// `ret`: drops a frame of the given size, pops the return address and
    /// continues there.
    pub open spec fn ret(self, instruction: u32) -> Result<State, VmError> {
        let base = self.sp + frame_size(instruction);
        if base + 4 > MEMORY_SIZE {
            Err(VmError::StackEmpty)
        } else {
            Ok(State { sp: base + 4, pc: wrap(to_signed(self.word_at(base)) - 4), ..self })
        }
    }

    /// `goto`: jumps.
    pub open spec fn goto(self, instruction: u32) -> Result<State, VmError> {
        Ok(self.jump(word_offset26(instruction)))
    }

    /// The two-operand branch: compares the word below the top, to the left,
    /// with the top, to the right, and jumps if the condition holds. The
    /// operands stay on the stack.
    pub open spec fn binary_if(self, instruction: u32) -> Result<State, VmError> {
        match self.peek_word(4) {
            Ok(left) => match self.peek_word(0) {
                Ok(right) => if binary_condition(instruction) > 5 {
                    Err(VmError::BadInstruction)
                } else if binary_condition_holds(
                    binary_condition(instruction),
                    to_signed(left),
                    to_signed(right),
                ) {
                    Ok(self.jump(branch_offset25(instruction)))
                } else {
                    Ok(self)
                },
                Err(e) => Err(e),
            },
            Err(e) => Err(e),
        }
    }

    /// The one-operand branch: jumps if the condition holds of the top of the
    /// stack, which stays there.
    pub open spec fn unary_if(self, instruction: u32) -> Result<State, VmError> {
        match self.peek_word(0) {
            Ok(operand) => if unary_condition_holds(
                unary_condition(instruction),
                to_signed(operand),
            ) {
                Ok(self.jump(branch_offset25(instruction)))
            } else {
                Ok(self)
            },
            Err(e) => Err(e),
        }
    }

    /// `dup`: pushes a copy of the word at the given offset from the top of
    /// the stack.
    pub open spec fn dup(self, instruction: u32) -> Result<State, VmError> {
        match self.peek_word(signed_operand28(instruction)) {
            Ok(word) => self.push_word(to_signed(word)),
            Err(e) => Err(e),
        }
    }

    /// `print`: writes the word at the given offset from the top of the
    /// stack in the given format, and ends the line.
    pub open spec fn print(self, instruction: u32) -> Result<State, VmError> {
        match self.peek_word(word_offset26(instruction)) {
            Ok(word) => Ok(
                self.write(formatted(to_signed(word), print_format(instruction)) + seq![NEWLINE]),
            ),
            Err(e) => Err(e),
        }
    }

    /// `dump`: lists the stack.
    pub open spec fn dump(self) -> Result<State, VmError> {
        Ok(self.write(stack_listing(self.memory, self.sp)))
    }

    /// `stprint`: writes the string at the given offset from the top of the
    /// stack.
    pub open spec fn stprint(self, instruction: u32) -> Result<State, VmError> {
        let start = self.sp + signed_operand28(instruction);
        if start < 0 || start >= MEMORY_SIZE {
            Err(VmError::OutOfBounds)
        } else {
            Ok(self.write(string_at(self.memory, start)))
        }
    }

    /// `debug`: lists the memory and the two pointers.
    pub open spec fn debug(self) -> Result<State, VmError> {
        Ok(
            self.write(memory_listing(self.memory)).write(
                pointer_listing(self.sp, self.pc as int),
            ),
        )
    }

    /// The `misc` family, by sub-opcode: 0 `exit`, 1 `swap`, 2 `nop`,
    /// 4 `input`, 5 `stinput`, 15 `debug`.
    pub open spec fn misc(self, instruction: u32) -> Result<State, VmError> {
        let sub = sub_opcode(instruction);
        if sub == 0 {
            self.exit(instruction)
        } else if sub == 1 {
            self.swap(instruction)
        } else if sub == 2 {
            Ok(self)
        } else if sub == 4 {
            self.input()
        } else if sub == 5 {
            self.stinput(instruction)
        } else if sub == 15 {
            self.debug()
        } else {
            Err(VmError::BadInstruction)
        }
    }

    /// What the instruction does, by opcode: 0 `misc`, 1 `pop`, 2 the
    /// two-operand and 3 the one-operand instructions, 4 `stprint`, 5 `call`,
    /// 6 `ret`, 7 `goto`, 8 and 9 the branches, 12 `dup`, 13 `print`,
    /// 14 `dump`, 15 `push`.
    pub open spec fn execute(self, instruction: u32) -> Result<State, VmError> {
        let op = opcode(instruction);
        if op == 0 {
            self.misc(instruction)
        } else if op == 1 {
            self.pop(instruction)
        } else if op == 2 {
            self.binary_arithmetic(instruction)
        } else if op == 3 {
            self.unary_arithmetic(instruction)
        } else if op == 4 {
            self.stprint(instruction)
        } else if op == 5 {
            self.call(instruction)
        } else if op == 6 {
            self.ret(instruction)
        } else if op == 7 {
            self.goto(instruction)
        } else if op == 8 {
            self.binary_if(instruction)
        } else if op == 9 {
            self.unary_if(instruction)
        } else if op == 12 {
            self.dup(instruction)
        } else if op == 13 {
            self.print(instruction)
        } else if op == 14 {
            self.dump()
        } else if op == 15 {
            self.push(instruction)
        } else {
            Err(VmError::BadInstruction)
        }
    }

    /// The state with the program counter on the next instruction.
    pub open spec fn advance(self) -> State {
        State { pc: wrap(self.pc + 4), ..self }
    }

    /// One turn of the loop: fetches the instruction at the program counter,
    /// executes it and advances the program counter.
    pub open spec fn step(self) -> Result<State, VmError> {
        match self.fetch() {
            Ok(instruction) => match self.execute(instruction) {
                Ok(next) => Ok(next.advance()),
                Err(e) => Err(e),
            },
            Err(e) => Err(e),
        }
    }

    /// Whether the next instruction reads a line and none is there.
    pub open spec fn awaits_input(self) -> bool {
        self.input.len() == 0 && self.fetch() is Ok && reads_input(self.fetch()->Ok_0)
    }

    /// Runs until the program halts, an instruction fails, the next
    /// instruction awaits a line of input, or `budget` instructions have been
    /// executed. A machine that has halted stays as it is.
    pub open spec fn run(self, budget: nat) -> Run
        decreases budget,
    {
        if self.halted {
            Run { state: self, outcome: Ok(Some(self.exit_code)) }
        } else if budget == 0 || self.awaits_input() {
            Run { state: self, outcome: Ok(None) }
        } else {
            match self.step() {
                Ok(next) => next.run((budget - 1) as nat),
                Err(e) => Run { state: self, outcome: Err(e) },
            }
        }
    }
}

} // verus!
