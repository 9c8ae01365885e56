//! What holds of the machine whatever the program.

use vstd::prelude::*;
use vstd::arithmetic::power2::pow2;
use crate::arith::{binop_value, shift_count, unop_value};
use crate::chunks::{chunk_count, chunks, is_plain, lemma_string_round_trip, packed};
use crate::decode::{frame_size, opcode, signed_operand28};
use crate::error::VmError;
use crate::parse::{
    all_digits,
    contains_pair,
    digit_value,
    digits_value,
    drop_spaces,
    parsed_line,
    parsed_number,
    space_at,
    space_before,
    trim_end,
    trim_start,
    trimmed,
};
use crate::state::{State, MEMORY_SIZE};
use crate::text::{decimal, digit, digits, formatted, NEWLINE};
use crate::word::{
    lemma_be_bytes_round_trip,
    lemma_be_round_trip,
    to_signed,
    to_unsigned,
    word_to_be,
    wrap,
};

verus! {

/// The state after `count` instructions, if each of them could be fetched
/// and executed.
pub open spec fn after(start: State, count: nat) -> Option<State>
    decreases count,
{
    if count == 0 {
        Some(start)
    } else {
        match after(start, (count - 1) as nat) {
            Some(state) => match state.step() {
                Ok(next) => Some(next),
                Err(_) => None,
            },
            None => None,
        }
    }
}

/// A machine starts with an empty stack, at the first instruction, and not
/// halted.
pub proof fn lemma_initial_state(program: Seq<u8>)
    ensures
        State::initial(program).wf(),
        State::initial(program).sp == MEMORY_SIZE,
        State::initial(program).pc == 0,
        !State::initial(program).halted,
        after(State::initial(program), 0) == Some(State::initial(program)),
{
}

/// A word depends on its four bytes only.
proof fn lemma_word_at_same_bytes(first: State, second: State, address: int)
    requires
        0 <= address,
        address + 4 <= first.memory.len(),
        first.memory.len() == second.memory.len(),
        forall|i: int| address <= i < address + 4 ==> first.memory[i] == second.memory[i],
    ensures
        first.word_at(address) == second.word_at(address),
{
    assert(first.memory.subrange(address, address + 4) =~= second.memory.subrange(
        address,
        address + 4,
    ));
}

/// Words are pushed if and only if the stack has room for all of them. They
/// then lie in their order from the new top of the stack upwards, and
/// nothing else has changed.
pub proof fn lemma_push_words_layout(state: State, words: Seq<u32>)
    requires
        state.wf(),
    ensures
        4 * words.len() <= state.sp <==> state.push_words(words) is Ok,
        state.push_words(words) matches Err(e) ==> e == VmError::OutOfMemory,
        state.push_words(words) matches Ok(next) ==> {
            &&& next.wf()
            &&& next.sp == state.sp - 4 * words.len()
            &&& forall|k: int|
                0 <= k < words.len() ==> #[trigger] next.word_at(next.sp + 4 * k) == words[k]
            &&& forall|i: int|
                0 <= i < MEMORY_SIZE && !(next.sp <= i < state.sp) ==> next.memory[i]
                    == state.memory[i]
            &&& next == (State { memory: next.memory, sp: next.sp, ..state })
        },
    decreases words.len(),
{
    if words.len() > 0 && state.sp >= 4 {
        let value = to_signed(words.last());
        let pushed = state.push_word(value)->Ok_0;
        lemma_push_pop_round_trip(state, value);
        lemma_push_words_layout(pushed, words.drop_last());
        if let Ok(next) = state.push_words(words) {
            assert forall|k: int| 0 <= k < words.len() implies #[trigger] next.word_at(
                next.sp + 4 * k,
            ) == words[k] by {
                if k < words.len() - 1 {
                    assert(words.drop_last()[k] == words[k]);
                } else {
                    lemma_word_at_same_bytes(next, pushed, pushed.sp);
                    assert(pushed.word_at(pushed.sp) == to_unsigned(value));
                }
            }
        }
    }
}

/// Whether what an instruction yields is in order: the state that follows
/// has its stack pointer on a word of the memory, or just behind it, and a
/// memory of the right size; and no error is fatal.
pub open spec fn in_order(outcome: Result<State, VmError>) -> bool {
    match outcome {
        Ok(next) => next.wf(),
        Err(e) => e != VmError::Fatal,
    }
}

/// The instructions that read a line.
proof fn lemma_reads_in_order(state: State, instruction: u32)
    requires
        state.wf(),
    ensures
        in_order(state.input()),
        in_order(state.stinput(instruction)),
{
    lemma_push_words_layout(state.without_line(), chunks(state.string_read(instruction)));
    assert(state.without_line().wf());
}

/// `swap`.
proof fn lemma_swap_in_order(state: State, instruction: u32)
    requires
        state.wf(),
    ensures
        in_order(state.swap(instruction)),
{
}

/// The instructions of the `misc` family.
proof fn lemma_misc_in_order(state: State, instruction: u32)
    requires
        state.wf(),
    ensures
        in_order(state.misc(instruction)),
{
    lemma_reads_in_order(state, instruction);
    lemma_swap_in_order(state, instruction);
    assert(in_order(state.exit(instruction)));
    assert(in_order(state.debug()));
}

/// The instructions that move words to and from the stack.
proof fn lemma_stack_instructions_in_order(state: State, instruction: u32)
    requires
        state.wf(),
    ensures
        in_order(state.pop(instruction)),
        in_order(state.push(instruction)),
        in_order(state.dup(instruction)),
{
}

/// The two-operand instructions.
proof fn lemma_binary_in_order(state: State, instruction: u32)
    requires
        state.wf(),
    ensures
        in_order(state.binary_arithmetic(instruction)),
{
}

/// The one-operand instructions.
proof fn lemma_unary_in_order(state: State, instruction: u32)
    requires
        state.wf(),
    ensures
        in_order(state.unary_arithmetic(instruction)),
{
}

/// `call`, `ret` and `goto`.
proof fn lemma_jumps_in_order(state: State, instruction: u32)
    requires
        state.wf(),
    ensures
        in_order(state.call(instruction)),
        in_order(state.ret(instruction)),
        in_order(state.goto(instruction)),
{
    assert(in_order(state.push_word(wrap(state.pc + 4))));
}

/// The branches.
proof fn lemma_branches_in_order(state: State, instruction: u32)
    requires
        state.wf(),
    ensures
        in_order(state.binary_if(instruction)),
        in_order(state.unary_if(instruction)),
{
}

/// The instructions that write.
proof fn lemma_writes_in_order(state: State, instruction: u32)
    requires
        state.wf(),
    ensures
        in_order(state.print(instruction)),
        in_order(state.stprint(instruction)),
        in_order(state.dump()),
{
}

/// No instruction moves the stack pointer off the words of the memory or
/// changes the size of the memory, and none fails fatally.
pub proof fn lemma_execute_in_order(state: State, instruction: u32)
    requires
        state.wf(),
    ensures
        in_order(state.execute(instruction)),
{
    let op = opcode(instruction);
    if op == 0 {
        lemma_misc_in_order(state, instruction);
    } else if op == 1 || op == 12 || op == 15 {
        lemma_stack_instructions_in_order(state, instruction);
    } else if op == 2 {
        lemma_binary_in_order(state, instruction);
    } else if op == 3 {
        lemma_unary_in_order(state, instruction);
    } else if op == 5 || op == 6 || op == 7 {
        lemma_jumps_in_order(state, instruction);
    } else if op == 8 || op == 9 {
        lemma_branches_in_order(state, instruction);
    } else if op == 4 || op == 13 || op == 14 {
        lemma_writes_in_order(state, instruction);
    }
}

/// A program counter outside the memory stops the machine: the step from
/// there is fatal. Nothing else is.
pub proof fn lemma_stray_program_counter_is_fatal(state: State)
    requires
        state.wf(),
    ensures
        (state.pc < 0 || state.pc > MEMORY_SIZE - 4) <==> state.step() == Err::<State, VmError>(
            VmError::Fatal,
        ),
{
    if let Ok(instruction) = state.fetch() {
        lemma_execute_in_order(state, instruction);
    }
}

/// Between instructions the memory has its size and the stack pointer lies
/// on a word between 0 and the size of the memory; and the program counter is
/// at least 0, or the machine stops there with a fatal error.
pub proof fn lemma_between_instructions(start: State, count: nat)
    requires
        start.wf(),
    ensures
        after(start, count) matches Some(state) ==> {
            &&& state.memory.len() == MEMORY_SIZE
            &&& 0 <= state.sp <= MEMORY_SIZE
            &&& state.sp % 4 == 0
            &&& state.pc >= 0 || state.step() == Err::<State, VmError>(VmError::Fatal)
        },
    decreases count,
{
    if count > 0 {
        lemma_between_instructions(start, (count - 1) as nat);
        if let Some(state) = after(start, (count - 1) as nat) {
            if let Ok(instruction) = state.fetch() {
                lemma_execute_in_order(state, instruction);
            }
        }
    }
    if let Some(state) = after(start, count) {
        lemma_stray_program_counter_is_fatal(state);
    }
}

/// A run stops in a state that the program reaches by executing at most
/// `budget` instructions.
pub proof fn lemma_run_stops_in_reach(start: State, budget: nat)
    ensures
        exists|count: nat| count <= budget && after(start, count) == Some(start.run(budget).state),
    decreases budget,
{
    if start.halted || budget == 0 || start.awaits_input() {
        assert(after(start, 0) == Some(start));
    } else {
        match start.step() {
            Ok(next) => {
                lemma_run_stops_in_reach(next, (budget - 1) as nat);
                let count = choose|count: nat|
                    count <= budget - 1 && after(next, count) == Some(
                        next.run((budget - 1) as nat).state,
                    );
                lemma_after_shifts(start, count);
                assert(after(start, count + 1) == Some(start.run(budget).state));
            },
            Err(_) => {
                assert(after(start, 0) == Some(start));
            },
        }
    }
}

/// A run that stopped before the program halted can be taken up again: to run
/// on a budget and then, if the program has neither halted nor failed, on a
/// second one is to run on the sum of the two.
pub proof fn lemma_run_in_parts(start: State, first: nat, second: nat)
    ensures
        start.run(first + second) == if start.run(first).outcome == Ok::<Option<i32>, VmError>(
            None,
        ) {
            start.run(first).state.run(second)
        } else {
            start.run(first)
        },
    decreases first,
{
    if start.halted {
    } else if start.awaits_input() {
        assert(start.run(second).state == start);
    } else if first == 0 {
    } else {
        match start.step() {
            Ok(next) => {
                lemma_run_in_parts(next, (first - 1) as nat, second);
                assert(start.run(first + second) == next.run((first - 1 + second) as nat));
            },
            Err(_) => {},
        }
    }
}

/// Executing one instruction and then `count` more is executing `count + 1`.
pub proof fn lemma_after_shifts(start: State, count: nat)
    requires
        start.step() is Ok,
    ensures
        after(start, count + 1) == after(start.step()->Ok_0, count),
    decreases count,
{
    if count > 0 {
        lemma_after_shifts(start, (count - 1) as nat);
    } else {
        assert(after(start, 0) == Some(start));
        assert(after(start, 1) == Some(start.step()->Ok_0));
    }
}

/// A number that is pushed and popped again comes back as it was, and the
/// stack pointer is where it was before.
pub proof fn lemma_push_pop_round_trip(state: State, value: i32)
    requires
        state.wf(),
    ensures
        state.sp >= 4 <==> state.push_word(value) is Ok,
        state.push_word(value) matches Ok(pushed) ==> {
            &&& pushed.wf()
            &&& pushed.memory.subrange(pushed.sp, pushed.sp + 4) == word_to_be(to_unsigned(value))
            &&& pushed.pop_word() matches Ok((popped, word))
            &&& to_signed(word) == value
            &&& popped.sp == state.sp
        },
{
    if let Ok(pushed) = state.push_word(value) {
        let word = to_unsigned(value);
        lemma_be_round_trip(word);
        assert(pushed.memory.subrange(pushed.sp, pushed.sp + 4) =~= word_to_be(word));
    }
}

/// A shift moves by its count modulo 32.
pub proof fn lemma_shift_count_is_modulo_32(right: i32)
    ensures
        shift_count(right) == right as int % 32,
{
    if right < 0 {
        vstd::arithmetic::div_mod::lemma_mod_multiples_vanish(0x800_0000, right as int, 32);
    }
}

/// A shift by a negative count is the shift by that count modulo 32: by
/// `-k` bits is by `32 - k % 32` bits, or by none if `k` is a multiple of 32.
pub proof fn lemma_shift_by_negative_count(sub: u32, left: i32, k: int)
    requires
        sub == 8 || sub == 9 || sub == 11,
        0 < k <= 0x8000_0000,
    ensures
        0 <= (-k) % 32 < 32,
        binop_value(sub, left, (-k) as i32) == binop_value(sub, left, ((-k) % 32) as i32),
{
    lemma_shift_count_is_modulo_32((-k) as i32);
    lemma_shift_count_is_modulo_32(((-k) % 32) as i32);
}

/// A shift to the left multiplies the bit pattern by a power of two, and
/// drops what does not fit in 32 bits.
pub proof fn lemma_shift_left_multiplies(left: i32, right: i32)
    ensures
        to_unsigned(binop_value(8, left, right)) == (to_unsigned(left) * pow2(
            shift_count(right) as nat,
        )) % 0x1_0000_0000,
{
    let word = to_unsigned(left);
    let count = shift_count(right);
    let wide = word as u64;
    assert(wide << (count as u64) <= 0x7fff_ffff_8000_0000 && (word << count) == (wide << (
    count as u64)) % 0x1_0000_0000) by (bit_vector)
        requires
            wide == word,
            count < 32,
    ;
    vstd::bits::lemma_u64_mul_pow2_le_max_iff_max_shr(wide, count as u64, 0x7fff_ffff_8000_0000);
    assert(0x7fff_ffff_8000_0000u64 >> (count as u64) >= 0xffff_ffff) by (bit_vector)
        requires
            count < 32,
    ;
    vstd::bits::lemma_u64_shl_is_mul(wide, count as u64);
}

/// A shift to the right that fills with zeros divides the bit pattern by a
/// power of two.
pub proof fn lemma_shift_right_divides(left: i32, right: i32)
    ensures
        to_unsigned(binop_value(9, left, right)) == to_unsigned(left) as nat / pow2(
            shift_count(right) as nat,
        ),
{
    vstd::bits::lemma_u32_shr_is_div(to_unsigned(left), shift_count(right));
}

/// A shift to the right that keeps the sign yields a negative number for a
/// negative one and no other, and is the shift that fills with zeros for
/// the others.
pub proof fn lemma_shift_right_keeps_sign(left: i32, right: i32)
    ensures
        binop_value(11, left, right) < 0 <==> left < 0,
        left >= 0 ==> binop_value(11, left, right) == binop_value(9, left, right),
        left < 0 ==> binop_value(11, left, right) == -1 - binop_value(11, (-1 - left) as i32, right),
{
    let count = shift_count(right);
    assert((left >> count) < 0 <==> left < 0) by (bit_vector)
        requires
            count < 32,
    ;
    assert(left >= 0 ==> (left >> count) == ((left as u32) >> count) as i32) by (bit_vector)
        requires
            count < 32,
    ;
    assert(left < 0 ==> (left >> count) == -1 - (((-1 - left) as i32) >> count)) by (bit_vector)
        requires
            count < 32,
    ;
}

/// The complement of a number is the number before its negation.
pub proof fn lemma_complement_is_negation_less_one(operand: i32)
    ensures
        unop_value(1, operand) == -operand - 1,
{
    assert(!operand == -operand - 1) by (bit_vector);
}

/// Going back by an instruction and advancing by one cancel each other.
proof fn lemma_back_and_forth(address: i32)
    ensures
        wrap(wrap(address - 4) + 4) == address,
{
}

/// A `call` succeeds if there is room for a word; it then leaves the address
/// of the instruction behind it on top of the stack.
pub proof fn lemma_call_leaves_return_address(state: State, call: u32)
    requires
        state.wf(),
    ensures
        state.sp >= 4 <==> state.call(call) is Ok,
        state.call(call) matches Ok(called) ==> {
            &&& called.wf()
            &&& called.sp == state.sp - 4
            &&& to_signed(called.word_at(called.sp)) == wrap(state.pc + 4)
        },
{
    let address = wrap(state.pc + 4);
    lemma_push_pop_round_trip(state, address);
    if let Ok(pushed) = state.push_word(address) {
        let called = state.call(call)->Ok_0;
        assert(called.memory == pushed.memory && called.sp == pushed.sp);
        assert(called.word_at(called.sp) == pushed.word_at(pushed.sp));
    }
}

/// A `ret` with no frame to drop pops the return address and leaves the
/// program counter just before it.
pub proof fn lemma_ret_takes_return_address(state: State, ret: u32)
    requires
        state.wf(),
        frame_size(ret) == 0,
    ensures
        state.sp + 4 <= MEMORY_SIZE <==> state.ret(ret) is Ok,
        state.ret(ret) matches Ok(returned) ==> {
            &&& returned.sp == state.sp + 4
            &&& returned.pc == wrap(to_signed(state.word_at(state.sp)) - 4)
        },
{
}

/// A `call` and the `ret` that matches it, with no frame to drop: whatever
/// has happened in between, if the stack pointer is where the `call` left it
/// and the return address is still there, the `ret` puts the stack pointer
/// back where it was before the `call` and the program counter, once
/// advanced, on the instruction behind the `call`.
pub proof fn lemma_call_then_ret(state: State, call: u32, later: State, ret: u32)
    requires
        state.wf(),
        later.wf(),
        frame_size(ret) == 0,
        state.call(call) matches Ok(called) ==> later.sp == called.sp && later.word_at(later.sp)
            == called.word_at(called.sp),
    ensures
        state.call(call) is Ok ==> {
            &&& later.ret(ret) matches Ok(returned)
            &&& returned.sp == state.sp
            &&& returned.advance().pc == wrap(state.pc + 4)
            &&& 0 <= state.pc <= MEMORY_SIZE - 4 ==> returned.advance().pc == state.pc + 4
        },
{
    lemma_call_leaves_return_address(state, call);
    lemma_ret_takes_return_address(later, ret);
    lemma_back_and_forth(wrap(state.pc + 4));
}

/// A line that `stinput` has stored is what `stprint` then writes from the
/// top of the stack, if the line holds neither of the bytes 0 and 1.
pub proof fn lemma_stinput_then_stprint(state: State, stinput: u32, stprint: u32)
    requires
        state.wf(),
        is_plain(state.string_read(stinput)),
        signed_operand28(stprint) == 0,
    ensures
        state.stinput(stinput) matches Ok(stored) ==> stored.stprint(stprint) == Ok::<
            State,
            VmError,
        >(stored.write(state.string_read(stinput))),
{
    let text = state.string_read(stinput);
    let words = chunks(text);
    lemma_push_words_layout(state.without_line(), words);
    if let Ok(stored) = state.stinput(stinput) {
        let start = stored.sp;
        assert forall|i: int| 0 <= i < 4 * words.len() implies stored.memory[start + i]
            == #[trigger] packed(text)[i] by {
            let k = i / 4;
            let bytes = stored.memory.subrange(start + 4 * k, start + 4 * k + 4);
            assert(stored.word_at(start + 4 * k) == words[k]);
            lemma_be_bytes_round_trip(bytes);
            assert(bytes[i % 4] == stored.memory[start + i]);
        }
        assert(stored.memory.subrange(start, start + 4 * chunk_count(text)) =~= packed(text));
        lemma_string_round_trip(stored.memory, start, text);
    }
}

/// The digits that a number is written with denote the number.
pub proof fn lemma_digits_denote(n: nat, radix: nat)
    requires
        2 <= radix <= 36,
    ensures
        digits(n, radix).len() >= 1,
        all_digits(digits(n, radix), radix as int),
        digits_value(digits(n, radix), radix as int) == n,
        forall|i: int|
            0 <= i < digits(n, radix).len() ==> '0' as u8 <= #[trigger] digits(n, radix)[i]
                <= 'z' as u8,
    decreases n,
{
    let text = digits(n, radix);
    if n < radix {
        assert(text =~= seq![digit(n as int)]);
        assert(text.drop_last() =~= Seq::<u8>::empty());
        assert(digit_value(digit(n as int), radix as int) == Some(n as int));
        reveal_with_fuel(digits_value, 2);
    } else {
        let high = digits(n / radix, radix);
        let low = digit((n % radix) as int);
        vstd::arithmetic::div_mod::lemma_div_decreases(n as int, radix as int);
        lemma_digits_denote(n / radix, radix);
        assert(text =~= high.push(low));
        assert(text.drop_last() =~= high);
        assert(text.last() == low);
        assert(digit_value(low, radix as int) == Some((n % radix) as int));
        assert forall|i: int| 0 <= i < text.len() implies (#[trigger] digit_value(
            text[i],
            radix as int,
        )) is Some by {
            if i < high.len() {
                assert(text[i] == high[i]);
            }
        }
        assert forall|i: int| 0 <= i < text.len() implies '0' as u8 <= #[trigger] text[i]
            <= 'z' as u8 by {
            if i < high.len() {
                assert(text[i] == high[i]);
            }
        }
        vstd::arithmetic::div_mod::lemma_fundamental_div_mod(n as int, radix as int);
        assert((n / radix) * radix == radix * (n / radix)) by (nonlinear_arith);
    }
}

/// A number written in decimal is read back as it was.
pub proof fn lemma_decimal_round_trip(value: i32)
    ensures
        parsed_number(decimal(value as int), 10) == Some(value),
{
    let text = decimal(value as int);
    if value < 0 {
        let body = digits((-value) as nat, 10);
        lemma_digits_denote((-value) as nat, 10);
        assert(text =~= seq!['-' as u8] + body);
        assert(text[0] == '-' as u8);
        assert(text.skip(1) =~= body);
    } else {
        lemma_digits_denote(value as nat, 10);
        assert(text[0] == digits(value as nat, 10)[0]);
    }
}

/// A number written in decimal holds nothing but a minus sign at its start
/// and the digits `0` to `9`.
proof fn lemma_decimal_characters(value: i32)
    ensures
        decimal(value as int).len() >= 1,
        forall|i: int|
            0 <= i < decimal(value as int).len() ==> {
                let c = #[trigger] decimal(value as int)[i];
                '0' as u8 <= c <= '9' as u8 || (i == 0 && i + 1 < decimal(value as int).len() && c
                    == '-' as u8)
            },
{
    let text = decimal(value as int);
    let magnitude: nat = if value < 0 {
        (-value) as nat
    } else {
        value as nat
    };
    let body = digits(magnitude, 10);
    lemma_digits_denote(magnitude, 10);
    assert forall|i: int| 0 <= i < body.len() implies '0' as u8 <= #[trigger] body[i]
        <= '9' as u8 by {
        assert(digit_value(body[i], 10) is Some);
    }
    if value < 0 {
        assert(text =~= seq!['-' as u8] + body);
        assert forall|i: int| 0 < i < text.len() implies '0' as u8 <= #[trigger] text[i]
            <= '9' as u8 by {
            assert(text[i] == body[i - 1]);
        }
    }
}

/// What `print` writes in decimal, `input` reads back as the same number.
pub proof fn lemma_print_then_input(value: i32)
    ensures
        parsed_line(formatted(value, 0) + seq![NEWLINE]) == Some(value),
{
    let text = decimal(value as int);
    let line = text + seq![NEWLINE];
    let len = line.len() as int;
    lemma_decimal_characters(value);
    lemma_decimal_round_trip(value);
    assert(line[0] == text[0]);
    assert(line[len - 1] == NEWLINE);
    assert(line[len - 2] == text[len - 2]);
    assert(space_at(line, 0, len) == 0);
    assert(trim_start(line) == 0);
    assert(space_before(line, 0, len) == 1);
    assert(space_before(line, 0, len - 1) == 0);
    reveal_with_fuel(drop_spaces, 3);
    assert(trim_end(line) == len - 1);
    assert(trimmed(line) =~= text);
    assert forall|i: int| 0 <= i && i + 1 < text.len() implies '0' as u8 <= #[trigger] text[i + 1]
        <= '9' as u8 by {}
    assert(!contains_pair(text, '0' as u8, 'x' as u8));
    assert(!contains_pair(text, '0' as u8, 'X' as u8));
    assert(!contains_pair(text, '0' as u8, 'b' as u8));
    assert(!contains_pair(text, '0' as u8, 'B' as u8));
}

} // verus!
