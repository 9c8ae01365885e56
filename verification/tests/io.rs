use stack_vm::chunks::{decode, encode};
use stack_vm::error::VmError;
use stack_vm::machine::VirtualMachine;
use stack_vm::parse::{holds_pair, parse_line, parse_number, trim};
use stack_vm::report::{append_memory_listing, append_pointer_listing, append_stack_listing};
use stack_vm::text::{append_decimal, append_digits, append_padded_digits, format_word};

fn io_machine(values: &[i32]) -> VirtualMachine {
    let mut vm = VirtualMachine::build(vec![0xde, 0xad, 0xbe, 0xef]).unwrap();
    for value in values {
        vm.push_int_onto_stack(*value).unwrap();
    }
    vm
}

fn io_word_at(vm: &VirtualMachine, address: usize) -> u32 {
    let m = vm.memory();
    u32::from_be_bytes([m[address], m[address + 1], m[address + 2], m[address + 3]])
}

fn sample_numbers() -> Vec<i32> {
    let mut numbers = vec![0, 1, -1, 7, 8, 9, 10, 11, 15, 16, 17, 99, 100, 101, 255, 256, -255,
        -256, 4095, 4096, 65535, 65536, 1_000_000, -1_000_000, 0x0102_0304, 0x7FFF_FFFF,
        -0x7FFF_FFFF, i32::MIN, i32::MIN + 1, 0x0800_0000, -0x0800_0000, 123_456_789];
    let mut x: u32 = 0x2545_F491;
    for _ in 0..200 {
        x ^= x << 13;
        x ^= x >> 17;
        x ^= x << 5;
        numbers.push(x as i32);
        numbers.push((x >> (x % 32)) as i32);
    }
    numbers
}

#[test]
fn format_word_writes_as_the_standard_formats_do() {
    for n in sample_numbers() {
        assert_eq!(format_word(n, 0), Ok(format!("{}", n).into_bytes()));
        assert_eq!(format_word(n, 1), Ok(format!("0x{:x}", n).into_bytes()));
        assert_eq!(format_word(n, 2), Ok(format!("0b{:b}", n).into_bytes()));
        assert_eq!(format_word(n, 3), Ok(format!("0o{:o}", n).into_bytes()));
    }
}

#[test]
fn format_word_exact_values() {
    assert_eq!(format_word(0, 0), Ok(b"0".to_vec()));
    assert_eq!(format_word(-42, 0), Ok(b"-42".to_vec()));
    assert_eq!(format_word(i32::MIN, 0), Ok(b"-2147483648".to_vec()));
    assert_eq!(format_word(255, 1), Ok(b"0xff".to_vec()));
    assert_eq!(format_word(-1, 1), Ok(b"0xffffffff".to_vec()));
    assert_eq!(format_word(0, 1), Ok(b"0x0".to_vec()));
    assert_eq!(format_word(5, 2), Ok(b"0b101".to_vec()));
    assert_eq!(format_word(i32::MIN, 2), Ok(b"0b10000000000000000000000000000000".to_vec()));
    assert_eq!(format_word(8, 3), Ok(b"0o10".to_vec()));
    assert_eq!(format_word(-1, 3), Ok(b"0o37777777777".to_vec()));
}

#[test]
fn format_word_rejects_unknown_formats() {
    assert_eq!(format_word(1, 4), Err(VmError::BadFormat));
    assert_eq!(format_word(1, 5), Err(VmError::BadFormat));
    assert_eq!(format_word(1, u32::MAX), Err(VmError::BadFormat));
}

#[test]
fn digits_are_appended() {
    let mut out = b"n=".to_vec();
    append_digits(&mut out, 0, 10);
    append_digits(&mut out, 1234567890, 10);
    append_digits(&mut out, u32::MAX as u64, 16);
    append_digits(&mut out, 35, 36);
    append_digits(&mut out, 36, 36);
    append_digits(&mut out, 5, 2);
    assert_eq!(out, b"n=01234567890ffffffffz10101".to_vec());
    let mut out = Vec::new();
    append_decimal(&mut out, -7);
    append_decimal(&mut out, 0);
    append_decimal(&mut out, i32::MAX);
    assert_eq!(out, b"-702147483647".to_vec());
}

#[test]
fn padded_digits_are_filled_with_zeros() {
    for n in sample_numbers() {
        let n = n as u32;
        for (width, expected) in [(0usize, format!("{:x}", n)), (1, format!("{:01x}", n)),
            (2, format!("{:02x}", n)), (4, format!("{:04x}", n)), (8, format!("{:08x}", n)),
            (11, format!("{:011x}", n))] {
            let mut out = Vec::new();
            append_padded_digits(&mut out, n as u64, 16, width);
            assert_eq!(out, expected.into_bytes());
        }
        let mut out = Vec::new();
        append_padded_digits(&mut out, n as u64, 10, 12);
        assert_eq!(out, format!("{:012}", n).into_bytes());
        let mut out = Vec::new();
        append_padded_digits(&mut out, n as u64, 2, 40);
        assert_eq!(out, format!("{:040b}", n).into_bytes());
    }
    let mut out = b">".to_vec();
    append_padded_digits(&mut out, 0xab, 16, 4);
    assert_eq!(out, b">00ab".to_vec());
    let mut out = Vec::new();
    append_padded_digits(&mut out, u64::MAX, 16, 4);
    append_digits(&mut out, u64::MAX, 10);
    assert_eq!(out, format!("{:04x}{}", u64::MAX, u64::MAX).into_bytes());
}

#[test]
fn print_writes_a_line() {
    let mut vm = io_machine(&[-5, 255]);
    assert_eq!(vm.print(0xD000_0000), Ok(()));
    assert_eq!(vm.output(), b"255\n");
    assert_eq!(vm.print(0xD000_0001), Ok(()));
    assert_eq!(vm.print(0xD000_0002), Ok(()));
    assert_eq!(vm.print(0xD000_0003), Ok(()));
    assert_eq!(vm.output(), b"255\n0xff\n0b11111111\n0o377\n");
    assert_eq!(vm.take_output(), b"255\n0xff\n0b11111111\n0o377\n".to_vec());
    // one word up
    assert_eq!(vm.print(0xD000_0004), Ok(()));
    assert_eq!(vm.print(0xD000_0005), Ok(()));
    assert_eq!(vm.output(), b"-5\n0xfffffffb\n");
    assert_eq!(vm.stack_pointer(), 4088);
    let _ = vm.take_output();
    // one word down, where nothing has been written yet
    assert_eq!(vm.print(0xDFFF_FFFC), Ok(()));
    assert_eq!(vm.output(), b"0\n");
    // bit 25 alone is no sign: 0x0200_0000 is the word offset 0x0080_0000
    assert_eq!(vm.print(0xD200_0000), Err(VmError::StackEmpty));
    assert_eq!(vm.print(0xD000_0008), Err(VmError::StackEmpty));
    assert_eq!(vm.output(), b"0\n");
}

#[test]
fn dump_lists_the_stack() {
    let mut vm = io_machine(&[]);
    assert_eq!(vm.dump(), Ok(()));
    assert_eq!(vm.output(), b"");
    let mut vm = io_machine(&[1, -1, 0x0102_0304]);
    let sp = vm.stack_pointer();
    assert_eq!(vm.dump(), Ok(()));
    assert_eq!(vm.output(), b"0ff4: 01020304\n0ff8: ffffffff\n0ffc: 00000001\n");
    assert_eq!(vm.stack_pointer(), sp);
    assert_eq!(vm.execute_instruction(0xE000_0000), Ok(()));
    assert_eq!(
        vm.take_output(),
        b"0ff4: 01020304\n0ff8: ffffffff\n0ffc: 00000001\n0ff4: 01020304\n0ff8: ffffffff\n0ffc: 00000001\n"
            .to_vec()
    );
}

#[test]
fn stack_listing_stops_at_the_last_whole_word() {
    let memory: Vec<u8> = (0u8..11).collect();
    let mut out = Vec::new();
    append_stack_listing(&mut out, &memory, 1);
    assert_eq!(out, b"0001: 01020304\n0005: 05060708\n".to_vec());
    let mut out = Vec::new();
    append_stack_listing(&mut out, &memory, 8);
    assert_eq!(out, b"".to_vec());
    append_stack_listing(&mut out, &memory, 7);
    assert_eq!(out, b"0007: 0708090a\n".to_vec());
    append_stack_listing(&mut out, &memory, 12);
    assert_eq!(out, b"0007: 0708090a\n".to_vec());
}

#[test]
fn debug_lists_the_memory_and_the_pointers() {
    let mut image = vec![0xde, 0xad, 0xbe, 0xef];
    image.extend_from_slice(&0x0F00_0000u32.to_le_bytes());
    let mut vm = VirtualMachine::build(image).unwrap();
    vm.push_int_onto_stack(-2).unwrap();
    let mut expected = String::new();
    for (i, byte) in vm.memory().iter().enumerate() {
        if i % 16 == 0 {
            if i != 0 {
                expected.push_str("\n");
            }
            expected.push_str(&format!(" {:04x} | ", i));
        }
        expected.push_str(&format!("  {:02x}", byte));
    }
    expected.push_str("\n");
    expected.push_str(&format!(" - stack pointer:   {}\n", 4092));
    expected.push_str(&format!(" - program counter: {}\n", 0));
    assert_eq!(vm.step(), Ok(()));
    assert_eq!(String::from_utf8(vm.take_output()).unwrap(), expected);
    assert!(expected.starts_with(" 0000 |   00  00  00  0f  00"));
    assert!(expected.ends_with("  ff  ff  ff  fe\n - stack pointer:   4092\n - program counter: 0\n"));
    assert_eq!(vm.program_counter(), 4);
    assert_eq!(vm.stack_pointer(), 4092);
    vm.print_vm_info();
    assert_eq!(vm.output(), b" - stack pointer:   4092\n - program counter: 4\n");
}

#[test]
fn listings_of_short_memories() {
    let memory: Vec<u8> = (0u8..18).collect();
    let mut out = Vec::new();
    append_memory_listing(&mut out, &memory);
    assert_eq!(
        String::from_utf8(out).unwrap(),
        " 0000 |   00  01  02  03  04  05  06  07  08  09  0a  0b  0c  0d  0e  0f\n 0010 |   10  11\n"
    );
    let mut out = Vec::new();
    append_memory_listing(&mut out, &[]);
    assert_eq!(out, b"\n".to_vec());
    let mut out = Vec::new();
    append_pointer_listing(&mut out, -3, i32::MIN);
    assert_eq!(
        String::from_utf8(out).unwrap(),
        " - stack pointer:   -3\n - program counter: -2147483648\n"
    );
}

#[test]
fn trim_drops_white_space_as_the_standard_trim_does() {
    let lines = ["", " ", "\n", "abc", "  abc  ", "\tabc\r\n", "a b", " a b ", "\u{b}\u{c}x\u{b}",
        "\u{85}x\u{85}", "\u{a0}x\u{a0}", "\u{1680}x\u{1680}", "\u{2000}x\u{200a}",
        "\u{2005}\u{2028}x\u{2029}\u{202f}", "\u{205f}x\u{3000}", "\u{3000}\u{3000}",
        "\u{200b}x\u{200b}", "\u{feff}x", "\u{2060} x \u{180e}", "é x é", " \u{e9} ", "€ ",
        " \u{1f600} ", "x\u{0}", "\u{1c}x\u{1f}", " 0x1F \n", "\u{2007}42\u{2007}\n"];
    for line in lines {
        let (start, end) = trim(line.as_bytes());
        assert_eq!(&line.as_bytes()[start..end], line.trim().as_bytes(), "{:?}", line);
    }
}

#[test]
fn trim_of_bytes_that_are_no_text() {
    assert_eq!(trim(&[0x85, b'x', 0xa0]), (0, 3));
    assert_eq!(trim(&[0xc2]), (0, 1));
    assert_eq!(trim(&[b' ', 0xe2, 0x80]), (1, 3));
    assert_eq!(trim(&[0xe2, 0x80, 0x80]), (3, 3));
    assert_eq!(trim(&[0xe2, 0x80, 0x8b]), (0, 3));
    assert_eq!(trim(&[0x20, 0xc2, 0xa0, 0x20]), (4, 4));
}

#[test]
fn holds_pair_finds_neighbours() {
    assert!(holds_pair(b"0x", b'0', b'x'));
    assert!(holds_pair(b"120x", b'0', b'x'));
    assert!(holds_pair(b"0x12", b'0', b'x'));
    assert!(holds_pair(b"a0xb", b'0', b'x'));
    assert!(!holds_pair(b"x0", b'0', b'x'));
    assert!(!holds_pair(b"0 x", b'0', b'x'));
    assert!(!holds_pair(b"0", b'0', b'x'));
    assert!(!holds_pair(b"", b'0', b'x'));
    assert!(!holds_pair(b"0X", b'0', b'x'));
    assert!(holds_pair(b"00", b'0', b'0'));
}

#[test]
fn parse_number_reads_as_the_standard_parser_does() {
    let texts = ["", "0", "1", "-1", "+1", "+", "-", "+-1", "--1", "-+1", "12", "0012", "-0",
        "+0", "2147483647", "2147483648", "-2147483648", "-2147483649", "99999999999999999999",
        "-99999999999999999999", "7fffffff", "80000000", "-80000000", "-80000001", "ffffffff",
        "FFFF", "ff", "Ff", "g", "1g", "z", "Z", "zz", "10", "101", "102", "1 ", " 1", "1_0", "0x10",
        "1.0", "1e3", "١", "é", "1111111111111111111111111111111",
        "11111111111111111111111111111111", "-10000000000000000000000000000000",
        "-10000000000000000000000000000001", "0000000000000000000000000000000000000000001",
        "17777777777", "20000000000", "-20000000000", "zik0zj", "zik0zk", "-zik0zk", "-zik0zl",
        "9", "8", "a", "A", "/", ":", "@", "[", "`", "{"];
    for text in texts {
        for radix in [2u32, 8, 10, 16, 36] {
            assert_eq!(
                parse_number(text.as_bytes(), radix),
                i32::from_str_radix(text, radix).ok(),
                "{:?} in radix {}",
                text,
                radix
            );
        }
    }
    for n in sample_numbers() {
        assert_eq!(parse_number(format!("{}", n).as_bytes(), 10), Some(n));
        assert_eq!(parse_number(format!("+{}", n.unsigned_abs()).as_bytes(), 10), i32::try_from(n.unsigned_abs()).ok());
        assert_eq!(parse_number(format!("{:x}", n).as_bytes(), 16), if n >= 0 { Some(n) } else { None });
        assert_eq!(parse_number(format!("{:b}", n).as_bytes(), 2), if n >= 0 { Some(n) } else { None });
    }
}

#[test]
fn parse_number_exact_values() {
    assert_eq!(parse_number(b"42", 10), Some(42));
    assert_eq!(parse_number(b"-42", 10), Some(-42));
    assert_eq!(parse_number(b"1F", 16), Some(31));
    assert_eq!(parse_number(b"-1f", 16), Some(-31));
    assert_eq!(parse_number(b"101", 2), Some(5));
    assert_eq!(parse_number(b"", 10), None);
    assert_eq!(parse_number(&[0xff, b'1'], 10), None);
    assert_eq!(parse_number(b"2147483648", 10), None);
}

#[test]
fn parse_line_picks_the_radix_by_the_prefix() {
    assert_eq!(parse_line(b"42\n"), Some(42));
    assert_eq!(parse_line(b"  -17  \r\n"), Some(-17));
    assert_eq!(parse_line(b"+5"), Some(5));
    assert_eq!(parse_line(b"0x1F\n"), Some(31));
    assert_eq!(parse_line(b"0X1f\n"), Some(31));
    assert_eq!(parse_line(b" 0xff "), Some(255));
    assert_eq!(parse_line(b"0x7fffffff"), Some(i32::MAX));
    assert_eq!(parse_line(b"0x80000000"), None);
    assert_eq!(parse_line(b"0xffffffff"), None);
    assert_eq!(parse_line(b"0x-1"), Some(-1));
    assert_eq!(parse_line(b"0x"), None);
    assert_eq!(parse_line(b"0b101\n"), Some(5));
    assert_eq!(parse_line(b"0B11"), Some(3));
    assert_eq!(parse_line(b"0b2"), None);
    assert_eq!(parse_line(b"0b"), None);
    assert_eq!(parse_line(b""), None);
    assert_eq!(parse_line(b"\n"), None);
    assert_eq!(parse_line(b"abc"), None);
    assert_eq!(parse_line(b"1 2"), None);
    assert_eq!(parse_line(b"2147483648"), None);
    assert_eq!(parse_line(b"-2147483648"), Some(i32::MIN));
    // the prefix counts wherever it stands; what follows the first two bytes is read
    assert_eq!(parse_line(b"-0x10"), None);
    assert_eq!(parse_line(b"120x"), None);
    assert_eq!(parse_line(b"ff0x"), None);
    assert_eq!(parse_line(b"0b0x1"), None);
    assert_eq!(parse_line(b"0x0b1"), Some(0xb1));
    assert_eq!(parse_line(b"0b0B1"), None);
    assert_eq!(parse_line(b"110b"), None);
    assert_eq!(parse_line(b"0b0b"), None);
    assert_eq!(parse_line(b"1x0b"), None);
    assert_eq!(parse_line(b"000x"), None);
    assert_eq!(parse_line(b"\xe2\x80\x830x10\xe2\x80\x83"), Some(16));
}

#[test]
fn input_pushes_the_number_on_the_line() {
    let mut vm = io_machine(&[]);
    vm.feed_line(b"42\n".to_vec());
    vm.feed_line(b" 0x10 \n".to_vec());
    vm.feed_line(b"0b11\n".to_vec());
    vm.feed_line(b"-1\n".to_vec());
    assert_eq!(vm.pending_lines(), 4);
    assert_eq!(vm.input(), Ok(()));
    assert_eq!(io_word_at(&vm, 4092), 42);
    assert_eq!(vm.pending_lines(), 3);
    assert_eq!(vm.execute_instruction(0x0400_0000), Ok(()));
    assert_eq!(io_word_at(&vm, 4088), 16);
    assert_eq!(vm.input(), Ok(()));
    assert_eq!(io_word_at(&vm, 4084), 3);
    assert_eq!(vm.input(), Ok(()));
    assert_eq!(io_word_at(&vm, 4080), 0xFFFF_FFFF);
    assert_eq!(vm.pending_lines(), 0);
    assert_eq!(vm.stack_pointer(), 4080);
}

#[test]
fn input_of_no_number_fails() {
    let mut vm = io_machine(&[]);
    vm.feed_line(b"forty-two\n".to_vec());
    assert_eq!(vm.input(), Err(VmError::BadInput));
    assert_eq!(vm.pending_lines(), 1);
    assert_eq!(vm.stack_pointer(), 4096);
    // at the end of the input a line is empty
    let mut vm = io_machine(&[]);
    assert_eq!(vm.input(), Err(VmError::BadInput));
    vm.feed_line(Vec::new());
    assert_eq!(vm.input(), Err(VmError::BadInput));
}

#[test]
fn encode_packs_three_bytes_to_a_word() {
    assert_eq!(encode(b""), vec![0]);
    assert_eq!(encode(b"A"), vec![0x0000_0041]);
    assert_eq!(encode(b"AB"), vec![0x0000_4241]);
    assert_eq!(encode(b"ABC"), vec![0x0043_4241, 0]);
    assert_eq!(encode(b"ABCD"), vec![0x0143_4241, 0x0000_0044]);
    assert_eq!(encode(b"ABCDE"), vec![0x0143_4241, 0x0000_4544]);
    assert_eq!(encode(b"ABCDEF"), vec![0x0143_4241, 0x0046_4544, 0]);
    assert_eq!(encode(b"ABCDEFG"), vec![0x0143_4241, 0x0146_4544, 0x0000_0047]);
    assert_eq!(encode(&[0xff, 0xfe, 0xfd, 0xfc]), vec![0x01fd_feff, 0x0000_00fc]);
}

#[test]
fn stinput_pushes_the_string_first_bytes_on_top() {
    let mut vm = io_machine(&[]);
    vm.feed_line(b"  ABCDEFG \n".to_vec());
    assert_eq!(vm.stinput(0x05FF_FFFF), Ok(()));
    assert_eq!(vm.stack_pointer(), 4096 - 12);
    assert_eq!(io_word_at(&vm, 4084), 0x0143_4241);
    assert_eq!(io_word_at(&vm, 4088), 0x0146_4544);
    assert_eq!(io_word_at(&vm, 4092), 0x0000_0047);
    assert_eq!(
        &vm.memory()[4084..],
        &[1, b'C', b'B', b'A', 1, b'F', b'E', b'D', 0, 0, 0, b'G']
    );
    assert_eq!(vm.pending_lines(), 0);
    let mut vm = io_machine(&[]);
    vm.feed_line(b"ABC\n".to_vec());
    assert_eq!(vm.execute_instruction(0x05FF_FFFF), Ok(()));
    assert_eq!(vm.stack_pointer(), 4096 - 8);
    assert_eq!(io_word_at(&vm, 4088), 0x0043_4241);
    assert_eq!(io_word_at(&vm, 4092), 0);
}

#[test]
fn stinput_cuts_the_line_to_the_limit() {
    let mut vm = io_machine(&[]);
    vm.feed_line(b"ABCDEFG\n".to_vec());
    assert_eq!(vm.stinput(0x0500_0004), Ok(()));
    assert_eq!(vm.stack_pointer(), 4096 - 8);
    assert_eq!(io_word_at(&vm, 4088), 0x0143_4241);
    assert_eq!(io_word_at(&vm, 4092), 0x0000_0044);
    let mut vm = io_machine(&[]);
    vm.feed_line(b"ABCDEFG\n".to_vec());
    assert_eq!(vm.stinput(0x0500_0000), Ok(()));
    assert_eq!(vm.stack_pointer(), 4092);
    assert_eq!(io_word_at(&vm, 4092), 0);
    // at the end of the input a line is empty
    assert_eq!(vm.stinput(0x05FF_FFFF), Ok(()));
    assert_eq!(vm.stack_pointer(), 4088);
    assert_eq!(io_word_at(&vm, 4088), 0);
    // the white space goes before the line is cut
    vm.feed_line(b"   AB  CD   \n".to_vec());
    assert_eq!(vm.stinput(0x0500_0003), Ok(()));
    assert_eq!(io_word_at(&vm, 4080), 0x0020_4241);
    assert_eq!(io_word_at(&vm, 4084), 0);
}

#[test]
fn stinput_without_room_pushes_nothing() {
    let mut vm = io_machine(&[]);
    for _ in 0..1022 {
        vm.push_int_onto_stack(-1).unwrap();
    }
    assert_eq!(vm.stack_pointer(), 8);
    vm.feed_line(b"ABCDEF\n".to_vec());
    let memory = vm.memory().to_vec();
    assert_eq!(vm.stinput(0x05FF_FFFF), Err(VmError::OutOfMemory));
    assert_eq!(vm.stack_pointer(), 8);
    assert_eq!(vm.pending_lines(), 1);
    assert_eq!(vm.memory(), &memory[..]);
    assert_eq!(vm.stinput(0x0500_0005), Ok(()));
    assert_eq!(vm.stack_pointer(), 0);
    assert_eq!(vm.pending_lines(), 0);
    assert_eq!(io_word_at(&vm, 0), 0x0143_4241);
    assert_eq!(io_word_at(&vm, 4), 0x0000_4544);
}

#[test]
fn decode_reads_back_what_encode_packs() {
    let text = b"The quick brown fox jumps over the lazy dog";
    for length in 0..text.len() {
        let mut memory: Vec<u8> = vec![0xaa, 0xbb];
        for word in encode(&text[..length]) {
            memory.extend_from_slice(&word.to_be_bytes());
        }
        memory.extend_from_slice(b"junk behind the string");
        assert_eq!(decode(&memory, 2), text[..length].to_vec());
    }
}

#[test]
fn decode_stops_three_bytes_behind_the_first_zero() {
    assert_eq!(decode(&[0, b'C', b'B', b'A', b'x', b'y'], 0), b"ABC".to_vec());
    assert_eq!(decode(&[1, b'C', b'B', b'A', 0, 0, 0, b'D', b'x'], 0), b"ABCD".to_vec());
    assert_eq!(decode(&[b'a', b'b', b'c', b'd', 0, b'e'], 0), b"cbaed".to_vec());
    assert_eq!(decode(&[b'a', b'b', b'c', b'd'], 0), b"cbad".to_vec());
    assert_eq!(decode(&[b'a', b'b', b'c', b'd'], 2), b"dc".to_vec());
    assert_eq!(decode(&[b'a', b'b', b'c', b'd'], 4), b"".to_vec());
    assert_eq!(decode(&[], 0), b"".to_vec());
    assert_eq!(decode(&[0, 0, 0, 0, b'x'], 0), b"".to_vec());
    assert_eq!(decode(&[0, 1, 1, b'a', b'x'], 0), b"a".to_vec());
    assert_eq!(decode(&[b'a', 1, b'b', 1, b'c', b'd', 0], 0), b"cbad".to_vec());
    assert_eq!(decode(&[0, b'a', 0, b'b', b'c'], 0), b"ba".to_vec());
}

#[test]
fn stprint_writes_the_string() {
    for text in ["", "A", "AB", "ABC", "ABCD", "ABCDE", "ABCDEF", "Hello, world!", "h\u{e9}llo"] {
        let mut vm = io_machine(&[-1]);
        let mut line = text.as_bytes().to_vec();
        line.push(b'\n');
        vm.feed_line(line);
        assert_eq!(vm.stinput(0x05FF_FFFF), Ok(()));
        let sp = vm.stack_pointer();
        assert_eq!(vm.stprint(0x4000_0000), Ok(()));
        assert_eq!(vm.output(), text.as_bytes());
        assert_eq!(vm.stack_pointer(), sp);
        assert_eq!(vm.execute_instruction(0x4000_0000), Ok(()));
        assert_eq!(vm.take_output(), [text.as_bytes(), text.as_bytes()].concat());
    }
}

#[test]
fn stprint_at_an_offset() {
    let mut vm = io_machine(&[]);
    vm.feed_line(b"ABCDEFG\n".to_vec());
    assert_eq!(vm.stinput(0x05FF_FFFF), Ok(()));
    assert_eq!(vm.stprint(0x4000_0004), Ok(()));
    assert_eq!(vm.take_output(), b"DEFG".to_vec());
    assert_eq!(vm.stprint(0x4000_0008), Ok(()));
    assert_eq!(vm.take_output(), b"G".to_vec());
    assert_eq!(vm.stprint(0x4000_000B), Ok(()));
    assert_eq!(vm.take_output(), b"G".to_vec());
    vm.push_int_onto_stack(0x5A59_5857).unwrap();
    assert_eq!(vm.stprint(0x4000_0000), Ok(()));
    assert_eq!(vm.take_output(), b"XYZBCWEFAGD".to_vec());
    // below the stack pointer, where the memory is still zero
    assert_eq!(vm.stprint(0x4FFF_FFFC), Ok(()));
    assert_eq!(vm.take_output(), b"".to_vec());
    assert_eq!(vm.stprint(0x4FFF_FFFF), Ok(()));
    assert_eq!(vm.take_output(), b"XYZ".to_vec());
}

#[test]
fn stprint_outside_the_memory_fails() {
    let mut vm = io_machine(&[]);
    assert_eq!(vm.stprint(0x4000_0000), Err(VmError::OutOfBounds));
    assert_eq!(vm.stprint(0x4000_0001), Err(VmError::OutOfBounds));
    assert_eq!(vm.stprint(0x4FFF_F000), Ok(()));
    assert_eq!(vm.stprint(0x4FFF_EFFF), Err(VmError::OutOfBounds));
    assert_eq!(vm.stprint(0x4800_0000), Err(VmError::OutOfBounds));
    assert_eq!(vm.stprint(0x4FFF_FFFF), Ok(()));
    assert_eq!(vm.output(), b"");
}

#[test]
fn run_pauses_for_input() {
    let mut image = vec![0xde, 0xad, 0xbe, 0xef];
    // input; print; stinput; stprint; exit
    for word in [0x0400_0000u32, 0xD000_0001, 0x05FF_FFFF, 0x4000_0000, 0x0000_0000] {
        image.extend_from_slice(&word.to_le_bytes());
    }
    let mut vm = VirtualMachine::build(image).unwrap();
    assert!(vm.awaits_input());
    assert_eq!(vm.run(100), Ok(None));
    assert_eq!(vm.program_counter(), 0);
    vm.feed_line(b"255\n".to_vec());
    assert!(!vm.awaits_input());
    assert_eq!(vm.run(100), Ok(None));
    assert_eq!(vm.program_counter(), 8);
    assert!(vm.awaits_input());
    assert_eq!(vm.take_output(), b"0xff\n".to_vec());
    vm.feed_line(b"hello\n".to_vec());
    assert_eq!(vm.run(100), Ok(Some(0)));
    assert_eq!(vm.take_output(), b"hello".to_vec());
    assert!(!vm.awaits_input());
}

#[test]
fn run_reads_the_lines_it_was_fed_in_their_order() {
    let mut image = vec![0xde, 0xad, 0xbe, 0xef];
    // input; input; sub; print; exit
    for word in [0x0400_0000u32, 0x0400_0000, 0x2100_0000, 0xD000_0000, 0x0000_0000] {
        image.extend_from_slice(&word.to_le_bytes());
    }
    let mut vm = VirtualMachine::build(image).unwrap();
    vm.feed_line(b"10\n".to_vec());
    vm.feed_line(b"3\n".to_vec());
    vm.feed_line(b"unread\n".to_vec());
    assert_eq!(vm.run(100), Ok(Some(0)));
    assert_eq!(vm.output(), b"7\n");
    assert_eq!(vm.pending_lines(), 1);
}

#[test]
fn what_print_writes_in_decimal_input_reads_back() {
    for n in sample_numbers() {
        let mut line = format_word(n, 0).unwrap();
        line.push(b'\n');
        assert_eq!(parse_line(&line), Some(n));
        let mut vm = io_machine(&[n]);
        assert_eq!(vm.print(0xD000_0000), Ok(()));
        let written = vm.take_output();
        vm.feed_line(written);
        assert_eq!(vm.input(), Ok(()));
        assert_eq!(vm.stack_pointer(), 4088);
        assert_eq!(io_word_at(&vm, 4088), n as u32);
        assert_eq!(io_word_at(&vm, 4092), n as u32);
        for format in [1u32, 2] {
            let mut line = format_word(n, format).unwrap();
            line.push(b'\n');
            assert_eq!(parse_line(&line), if n >= 0 { Some(n) } else { None });
        }
    }
}
