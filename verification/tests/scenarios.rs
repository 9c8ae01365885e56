use stack_vm::error::VmError;
use stack_vm::machine::VirtualMachine;

fn scenario_image(instructions: &[u32]) -> Vec<u8> {
    let mut image: Vec<u8> = vec![0xde, 0xad, 0xbe, 0xef];
    for word in instructions {
        image.extend_from_slice(&word.to_le_bytes());
    }
    image
}

fn scenario_machine(instructions: &[u32]) -> VirtualMachine {
    VirtualMachine::build(scenario_image(instructions)).unwrap()
}

fn scenario_top(vm: &VirtualMachine) -> u32 {
    let sp = vm.stack_pointer() as usize;
    let m = vm.memory();
    u32::from_be_bytes([m[sp], m[sp + 1], m[sp + 2], m[sp + 3]])
}

#[test]
fn immediate_exit() {
    let mut vm = scenario_machine(&[0x0000_0000]);
    assert_eq!(vm.run(1000), Ok(Some(0)));
    assert!(vm.halted());
    assert_eq!(vm.exit_code(), 0);
    assert_eq!(vm.program_counter(), 4);
    assert_eq!(vm.stack_pointer(), 4096);
}

#[test]
fn push_and_exit_with_code() {
    let mut vm = scenario_machine(&[0xF000_0005, 0x0000_0007]);
    assert_eq!(vm.run(1000), Ok(Some(7)));
    assert!(vm.halted());
    assert_eq!(vm.exit_code(), 7);
    assert_eq!(vm.stack_pointer(), 4092);
    assert_eq!(scenario_top(&vm), 5);
}

#[test]
fn arithmetic_adds_three_and_four() {
    let mut vm = scenario_machine(&[0xF000_0003, 0xF000_0004, 0x2000_0000, 0x0000_0000]);
    assert_eq!(vm.run(1000), Ok(Some(0)));
    assert_eq!(vm.stack_pointer(), 4092);
    assert_eq!(scenario_top(&vm), 7);
}

#[test]
fn sign_extended_push() {
    let mut vm = scenario_machine(&[0xF800_0001, 0x0000_0000]);
    assert_eq!(vm.run(1000), Ok(Some(0)));
    assert_eq!(vm.stack_pointer(), 4092);
    assert_eq!(scenario_top(&vm), 0xF800_0001);
    assert_eq!(&vm.memory()[4092..4096], &[0xF8, 0x00, 0x00, 0x01]);
    assert!((scenario_top(&vm) as i32) < 0);
}

#[test]
fn goto_to_itself_loops_until_the_budget_is_spent() {
    let mut vm = scenario_machine(&[0x7000_0000, 0x0000_0000]);
    assert_eq!(vm.run(10_000), Ok(None));
    assert!(!vm.halted());
    assert_eq!(vm.program_counter(), 0);
    assert_eq!(vm.run(10_000), Ok(None));
    assert_eq!(vm.program_counter(), 0);
}

#[test]
fn goto_one_word_back_from_the_start_leaves_the_memory() {
    let mut vm = scenario_machine(&[0x7FFF_FFFF, 0x0000_0000]);
    assert_eq!(vm.step(), Ok(()));
    assert_eq!(vm.program_counter(), -4);
    assert_eq!(vm.step(), Err(VmError::Fatal));
    assert_eq!(vm.program_counter(), -4);
    let mut again = scenario_machine(&[0x7FFF_FFFF, 0x0000_0000]);
    assert_eq!(again.run(1000), Err(VmError::Fatal));
}

#[test]
fn goto_one_word_back_refetches_the_instruction_before_it() {
    let mut vm = scenario_machine(&[0x0200_0000, 0x7FFF_FFFF, 0x0000_0000]);
    assert_eq!(vm.run(1001), Ok(None));
    assert!(!vm.halted());
    assert_eq!(vm.program_counter(), 4);
}

#[test]
fn string_round_trip() {
    let mut vm = scenario_machine(&[0x05FF_FFFF, 0x4000_0000, 0x0000_0000]);
    vm.feed_line(b"AB\n".to_vec());
    assert_eq!(vm.run(1000), Ok(Some(0)));
    assert_eq!(vm.stack_pointer(), 4092);
    assert_eq!(scenario_top(&vm), 0x0000_4241);
    assert_eq!(&vm.memory()[4092..4096], &[0, 0, b'B', b'A']);
    assert_eq!(vm.output(), b"AB");
    assert_eq!(vm.take_output(), b"AB".to_vec());
    assert_eq!(vm.output(), b"");
}

#[test]
fn string_constructed_by_push_prints() {
    let mut vm = scenario_machine(&[0xF000_4241, 0x4000_0000, 0x0000_0000]);
    assert_eq!(vm.run(1000), Ok(Some(0)));
    assert_eq!(vm.output(), b"AB");
}

#[test]
fn push_writes_most_significant_byte_first() {
    // 0x01020304 does not fit the 28-bit immediate: 0x0102 shifted left by 16, or-ed with 0x0304.
    let mut vm = scenario_machine(&[
        0xF000_0102,
        0xF000_0010,
        0x2800_0000,
        0xF000_0304,
        0x2600_0000,
        0x0000_0000,
    ]);
    assert_eq!(vm.run(1000), Ok(Some(0)));
    assert_eq!(vm.stack_pointer(), 4092);
    assert_eq!(&vm.memory()[4092..4096], &[0x01, 0x02, 0x03, 0x04]);
}

#[test]
fn push_int_writes_most_significant_byte_first() {
    let mut vm = scenario_machine(&[]);
    assert_eq!(vm.push_int_onto_stack(0x0102_0304), Ok(()));
    let sp = vm.stack_pointer() as usize;
    assert_eq!(sp, 4092);
    assert_eq!(&vm.memory()[sp..sp + 4], &[0x01, 0x02, 0x03, 0x04]);
}

#[test]
fn instruction_fetch_is_least_significant_byte_first() {
    let mut vm = VirtualMachine::build(vec![0xde, 0xad, 0xbe, 0xef, 0x0F, 0x00, 0x00, 0x00]).unwrap();
    assert!(vm.can_fetch());
    assert_eq!(vm.get_next_instruction(), 0x0000_000F);
    let mut pushing =
        VirtualMachine::build(vec![0xde, 0xad, 0xbe, 0xef, 0x0F, 0x00, 0x00, 0xF0]).unwrap();
    assert_eq!(pushing.get_next_instruction(), 0xF000_000F);
    assert_eq!(pushing.step(), Ok(()));
    assert_eq!(scenario_top(&pushing), 15);
    assert_eq!(vm.push(0x0000_000F), Ok(()));
    assert_eq!(scenario_top(&vm), 15);
}

#[test]
fn pushed_word_read_as_code_is_byte_swapped() {
    let mut vm = scenario_machine(&[]);
    assert_eq!(vm.push_int_onto_stack(0x0102_0304), Ok(()));
    assert_eq!(vm.goto(0x7000_0000 | 4092), Ok(()));
    vm.increment_program_counter();
    assert_eq!(vm.program_counter(), 4092);
    assert!(vm.can_fetch());
    assert_eq!(vm.get_next_instruction(), 0x0403_0201);
}

#[test]
fn pop_clamps_at_the_end_of_memory() {
    let mut vm = scenario_machine(&[]);
    assert_eq!(vm.push(0xF000_0001), Ok(()));
    assert_eq!(vm.stack_pointer(), 4092);
    assert_eq!(vm.pop(0x1000_0008), Ok(()));
    assert_eq!(vm.stack_pointer(), 4096);
}

#[test]
fn push_pop_round_trip() {
    for n in [0i32, 1, -1, 5, i32::MAX, i32::MIN, 0x0102_0304, -123_456_789] {
        let mut vm = scenario_machine(&[]);
        assert_eq!(vm.push_int_onto_stack(7), Ok(()));
        let sp = vm.stack_pointer();
        assert_eq!(vm.push_int_onto_stack(n), Ok(()));
        assert_eq!(vm.stack_pointer(), sp - 4);
        assert_eq!(vm.pop_int_from_stack().map(|w| w as i32), Ok(n));
        assert_eq!(vm.stack_pointer(), sp);
    }
}

#[test]
fn call_then_ret_comes_back_behind_the_call() {
    // 0: push 9; 4: call +3 words; 8: exit; 16: ret 0
    let mut vm = scenario_machine(&[0xF000_0009, 0x5000_000C, 0x0000_0000, 0x0200_0000, 0x6000_0000]);
    assert_eq!(vm.step(), Ok(()));
    let sp = vm.stack_pointer();
    assert_eq!(vm.program_counter(), 4);
    assert_eq!(vm.step(), Ok(()));
    assert_eq!(vm.program_counter(), 16);
    assert_eq!(vm.stack_pointer(), sp - 4);
    assert_eq!(scenario_top(&vm), 8);
    assert_eq!(vm.step(), Ok(()));
    assert_eq!(vm.program_counter(), 8);
    assert_eq!(vm.stack_pointer(), sp);
    assert_eq!(vm.run(10), Ok(Some(0)));
}

#[test]
fn stack_pointer_stays_in_memory() {
    let programs: [&[u32]; 4] = [
        &[0xF000_0001, 0x7000_0000],
        &[0x1000_0FFC, 0x1FFF_FFFC, 0x7FFF_FFF8],
        &[0xF000_0001, 0xC000_0000, 0x7FFF_FFFC],
        &[0xF000_0000, 0x6000_0000],
    ];
    for program in programs {
        let mut vm = scenario_machine(program);
        for _ in 0..3000 {
            let fetched_at = vm.program_counter();
            let result = vm.step();
            assert!(0 <= vm.stack_pointer() && vm.stack_pointer() <= 4096);
            assert_eq!(vm.stack_pointer() % 4, 0);
            assert_eq!(vm.memory().len(), 4096);
            assert_eq!(result == Err(VmError::Fatal), fetched_at < 0 || fetched_at > 4092);
            if result.is_err() {
                break;
            }
        }
    }
}

#[test]
fn run_in_parts_is_run_at_once() {
    // count down from 5, printing; then exit 9
    let program = [
        0xF000_0005, // push 5
        0xD000_0000, // print
        0xF000_0001, // push 1
        0x2100_0000, // sub
        0x9200_000C, // if not zero, 12 bytes on...
        0x0000_0009, // exit 9
        0x0200_0000, // nop
        0x7FFF_FFE8, // goto 6 words back
    ];
    let mut whole = scenario_machine(&program);
    let at_once = whole.run(1000);
    assert_eq!(at_once, Ok(Some(9)));
    assert_eq!(whole.output(), b"5\n4\n3\n2\n1\n");
    for first in 0..40u64 {
        let mut parts = scenario_machine(&program);
        match parts.run(first) {
            Ok(None) => assert_eq!(parts.run(1000 - first), at_once),
            other => assert_eq!(other, at_once),
        }
        assert_eq!(parts.output(), whole.output());
        assert_eq!(parts.memory(), whole.memory());
        assert_eq!(parts.stack_pointer(), whole.stack_pointer());
        assert_eq!(parts.program_counter(), whole.program_counter());
        assert_eq!(parts.exit_code(), whole.exit_code());
    }
}
