//! The machine itself: its memory and registers, how a program image becomes
//! a machine, and the access to words in memory that the instructions are
//! made of.

use vstd::prelude::*;
use crate::error::VmError;
use crate::state::{exchange_words, is_image, magic, State, HEADER_SIZE, MEMORY_SIZE};
use crate::word::{be_byte, pack_be, pack_le, unsigned, wrap};

verus! {

/// What each of the lines holds.
pub open spec fn lines_of(lines: Seq<Vec<u8>>) -> Seq<Seq<u8>> {
    Seq::new(lines.len(), |i: int| lines[i]@)
}

/// A machine with a program in its memory.
pub struct VirtualMachine {
    memory: Vec<u8>,
    stack_pointer: i32,
    program_counter: i32,
    exit_code: i32,
    should_exit: bool,
    input: Vec<Vec<u8>>,
    output: Vec<u8>,
}

impl View for VirtualMachine {
    type V = State;

    closed spec fn view(&self) -> State {
        State {
            memory: self.memory@,
            sp: self.stack_pointer as int,
            pc: self.program_counter,
            exit_code: self.exit_code,
            halted: self.should_exit,
            input: lines_of(self.input@),
            output: self.output@,
        }
    }
}

impl VirtualMachine {
    /// The memory has its size and the stack pointer lies on a word within
    /// it or just behind it.
    pub open spec fn wf(&self) -> bool {
        self@.wf()
    }

    /// Makes a machine from a program image: the header is checked and
    /// dropped, and what follows it becomes the start of the memory.
    pub fn build(image: Vec<u8>) -> (result: Result<VirtualMachine, VmError>)
        ensures
            match result {
                Ok(vm) => is_image(image@) && vm.wf() && vm@ == State::initial(
                    image@.skip(HEADER_SIZE as int),
                ),
                Err(e) => !is_image(image@) && e == VmError::BadImage,
            },
    {
        if image.len() > HEADER_SIZE + MEMORY_SIZE {
            return Err(VmError::BadImage);
        }
        if image.len() < HEADER_SIZE || image[0] != 0xde || image[1] != 0xad || image[2] != 0xbe
            || image[3] != 0xef {
            proof {
                if image@.len() >= HEADER_SIZE {
                    let head = image@.take(HEADER_SIZE as int);
                    assert(head[0] == image@[0] && head[1] == image@[1] && head[2] == image@[2]
                        && head[3] == image@[3]);
                }
            }
            return Err(VmError::BadImage);
        }
        assert(image@.take(HEADER_SIZE as int) =~= magic());
        let mut header = image;
        let mut memory = header.split_off(HEADER_SIZE);
        let ghost program = memory@;
        memory.resize(MEMORY_SIZE, 0);
        let vm = VirtualMachine {
            memory,
            stack_pointer: MEMORY_SIZE as i32,
            program_counter: 0,
            exit_code: 0,
            should_exit: false,
            input: Vec::new(),
            output: Vec::new(),
        };
        proof {
            assert(program =~= image@.skip(HEADER_SIZE as int));
            assert(vm@.memory =~= State::initial(program).memory) by {
                assert(vm.memory@.len() == MEMORY_SIZE);
                assert forall|i: int| 0 <= i < MEMORY_SIZE implies vm.memory@[i] == State::initial(
                    program,
                ).memory[i] by {
                    if i < program.len() {
                        assert(vm.memory@.subrange(0, program.len() as int)[i] == program[i]);
                    }
                }
            }
            assert(vm@.input =~= Seq::<Seq<u8>>::empty());
            assert(vm@ =~= State::initial(program));
        }
        Ok(vm)
    }

    /// The address of the word on top of the stack.
    pub fn stack_pointer(&self) -> (sp: i32)
        ensures
            sp == self@.sp,
    {
        self.stack_pointer
    }

    /// The address of the next instruction.
    pub fn program_counter(&self) -> (pc: i32)
        ensures
            pc == self@.pc,
    {
        self.program_counter
    }

    /// The payload of the last `exit` instruction, or zero.
    pub fn exit_code(&self) -> (code: i32)
        ensures
            code == self@.exit_code,
    {
        self.exit_code
    }

    /// Whether an `exit` instruction has been executed.
    pub fn halted(&self) -> (halted: bool)
        ensures
            halted == self@.halted,
    {
        self.should_exit
    }

    /// The memory.
    pub fn memory(&self) -> (memory: &[u8])
        ensures
            memory@ == self@.memory,
    {
        self.memory.as_slice()
    }

    /// What the program has written since the output was last taken.
    pub fn output(&self) -> (output: &[u8])
        ensures
            output@ == self@.output,
    {
        self.output.as_slice()
    }

    /// How many lines of input wait to be read.
    pub fn pending_lines(&self) -> (count: usize)
        ensures
            count == self@.input.len(),
    {
        self.input.len()
    }

    /// Hands the machine a line of input, to be read after those it has.
    pub fn feed_line(&mut self, line: Vec<u8>)
        ensures
            final(self)@ == (State { input: old(self)@.input.push(line@), ..old(self)@ }),
            old(self).wf() ==> final(self).wf(),
    {
        self.input.push(line);
        assert(final(self)@.input =~= old(self)@.input.push(line@));
    }

    /// Takes what the program has written since this was last called.
    pub fn take_output(&mut self) -> (output: Vec<u8>)
        ensures
            output@ == old(self)@.output,
            final(self)@ == (State { output: Seq::empty(), ..old(self)@ }),
            old(self).wf() ==> final(self).wf(),
    {
        let mut output: Vec<u8> = Vec::new();
        std::mem::swap(&mut self.output, &mut output);
        output
    }

    /// The instruction at the program counter: its four bytes, least
    /// significant first. They must lie within the memory.
    pub fn get_next_instruction(&self) -> (instruction: u32)
        requires
            self.wf(),
            self@.fetch() is Ok,
        ensures
            self@.fetch() == Ok::<u32, VmError>(instruction),
    {
        let pc: usize = self.program_counter as usize;
        let instruction: u32 = pack_le(
            self.memory[pc],
            self.memory[pc + 1],
            self.memory[pc + 2],
            self.memory[pc + 3],
        );
        assert(self@.memory.subrange(pc as int, pc + 4) =~= seq![
            self.memory@[pc as int],
            self.memory@[pc + 1],
            self.memory@[pc + 2],
            self.memory@[pc + 3],
        ]);
        instruction
    }

    /// Whether the program counter lies within the memory, so that an
    /// instruction can be fetched.
    pub fn can_fetch(&self) -> (inside: bool)
        ensures
            inside == self@.fetch() is Ok,
    {
        0 <= self.program_counter && self.program_counter <= MEMORY_SIZE as i32 - 4
    }

    /// Moves the program counter on by one instruction.
    pub fn increment_program_counter(&mut self)
        ensures
            final(self)@ == old(self)@.advance(),
            old(self).wf() ==> final(self).wf(),
    {
        self.program_counter = self.program_counter.wrapping_add(4);
    }

    /// Takes the word on top of the stack off it.
    pub fn pop_int_from_stack(&mut self) -> (result: Result<u32, VmError>)
        requires
            old(self).wf(),
        ensures
            final(self).wf(),
            match old(self)@.pop_word() {
                Ok((next, word)) => result == Ok::<u32, VmError>(word) && final(self)@ == next,
                Err(e) => result == Err::<u32, VmError>(e) && final(self)@ == old(self)@,
            },
    {
        if self.stack_pointer > MEMORY_SIZE as i32 - 4 {
            return Err(VmError::StackEmpty);
        }
        let word: u32 = self.word_at(self.stack_pointer as usize);
        self.stack_pointer = self.stack_pointer + 4;
        Ok(word)
    }

    /// Puts a number on top of the stack, most significant byte first.
    pub fn push_int_onto_stack(&mut self, n: i32) -> (result: Result<(), VmError>)
        requires
            old(self).wf(),
        ensures
            final(self).wf(),
            match old(self)@.push_word(n) {
                Ok(next) => result is Ok && final(self)@ == next,
                Err(e) => result == Err::<(), VmError>(e) && final(self)@ == old(self)@,
            },
    {
        if self.stack_pointer < 4 {
            return Err(VmError::OutOfMemory);
        }
        let start: usize = (self.stack_pointer - 4) as usize;
        let word: u32 = unsigned(n);
        self.memory.set(start, be_byte(word, 0));
        self.memory.set(start + 1, be_byte(word, 1));
        self.memory.set(start + 2, be_byte(word, 2));
        self.memory.set(start + 3, be_byte(word, 3));
        self.stack_pointer = self.stack_pointer - 4;
        assert(final(self)@ =~= old(self)@.push_word(n)->Ok_0);
        Ok(())
    }

    /// The word that lies `stack_offset` bytes above the top of the stack.
    pub fn peek_int_from_stack(&self, stack_offset: i32) -> (result: Result<u32, VmError>)
        requires
            self.wf(),
        ensures
            result == self@.peek_word(stack_offset as int),
    {
        let start: i64 = self.stack_pointer as i64 + stack_offset as i64;
        if start < 0 || start > MEMORY_SIZE as i64 - 4 {
            return Err(VmError::StackEmpty);
        }
        Ok(self.word_at(start as usize))
    }

    /// The data word at `address`.
    fn word_at(&self, address: usize) -> (word: u32)
        requires
            self.wf(),
            address + 4 <= MEMORY_SIZE,
        ensures
            word == self@.word_at(address as int),
    {
        let word: u32 = pack_be(
            self.memory[address],
            self.memory[address + 1],
            self.memory[address + 2],
            self.memory[address + 3],
        );
        assert(self@.memory.subrange(address as int, address + 4) =~= seq![
            self.memory@[address as int],
            self.memory@[address + 1],
            self.memory@[address + 2],
            self.memory@[address + 3],
        ]);
        word
    }

    /// Sets the stack pointer.
    pub(crate) fn set_stack_pointer(&mut self, sp: i32)
        requires
            0 <= sp <= MEMORY_SIZE,
        ensures
            final(self)@ == (State { sp: sp as int, ..old(self)@ }),
    {
        self.stack_pointer = sp;
    }

    /// Sets the program counter `displacement` bytes from this instruction,
    /// less the four bytes by which every instruction advances it.
    pub(crate) fn jump(&mut self, displacement: i32)
        ensures
            final(self)@ == old(self)@.jump(displacement as int),
    {
        self.program_counter = self.program_counter.wrapping_add(displacement).wrapping_sub(4);
    }

    /// Sets the program counter just before `target`, so that advancing it
    /// lands there.
    pub(crate) fn jump_to(&mut self, target: i32)
        ensures
            final(self)@ == (State { pc: wrap(target - 4), ..old(self)@ }),
    {
        self.program_counter = target.wrapping_sub(4);
    }

    /// Halts with the given exit code.
    pub(crate) fn halt(&mut self, code: i32)
        ensures
            final(self)@ == (State { exit_code: code, halted: true, ..old(self)@ }),
    {
        self.exit_code = code;
        self.should_exit = true;
    }

    /// Exchanges the words at two addresses.
    pub(crate) fn exchange(&mut self, first: usize, second: usize)
        requires
            old(self).wf(),
            first + 4 <= MEMORY_SIZE,
            second + 4 <= MEMORY_SIZE,
            first % 4 == 0,
            second % 4 == 0,
        ensures
            final(self)@ == (State {
                memory: exchange_words(old(self)@.memory, first as int, second as int),
                ..old(self)@
            }),
    {
        if first != second {
            let a0: u8 = self.memory[first];
            let a1: u8 = self.memory[first + 1];
            let a2: u8 = self.memory[first + 2];
            let a3: u8 = self.memory[first + 3];
            let b0: u8 = self.memory[second];
            let b1: u8 = self.memory[second + 1];
            let b2: u8 = self.memory[second + 2];
            let b3: u8 = self.memory[second + 3];
            self.memory.set(first, b0);
            self.memory.set(first + 1, b1);
            self.memory.set(first + 2, b2);
            self.memory.set(first + 3, b3);
            self.memory.set(second, a0);
            self.memory.set(second + 1, a1);
            self.memory.set(second + 2, a2);
            self.memory.set(second + 3, a3);
        }
        assert(final(self)@.memory =~= exchange_words(
            old(self)@.memory,
            first as int,
            second as int,
        ));
    }

    /// Writes `text` out.
    pub(crate) fn write(&mut self, text: &[u8])
        ensures
            final(self)@ == old(self)@.write(text@),
    {
        self.output.extend_from_slice(text);
        assert(final(self)@.output =~= old(self)@.output + text@);
    }

    /// The line that the next reading instruction gets.
    pub(crate) fn next_line(&self) -> (line: &[u8])
        ensures
            line@ == self@.next_line(),
    {
        if self.input.len() > 0 {
            self.input[0].as_slice()
        } else {
            let empty: &[u8] = &[];
            assert(empty@ =~= Seq::<u8>::empty());
            empty
        }
    }

    /// Drops the oldest unread line.
    pub(crate) fn discard_line(&mut self)
        ensures
            final(self)@ == old(self)@.without_line(),
    {
        if self.input.len() > 0 {
            let _ = self.input.remove(0);
            assert(final(self)@.input =~= old(self)@.input.skip(1));
        }
    }
}

} // verus!
