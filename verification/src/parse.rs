//! Reading a number from a line of input.
//!
//! A line is a sequence of bytes in UTF-8. White space around it is dropped;
//! what is left is a number in decimal, or in hexadecimal or binary behind a
//! two-character prefix.

use vstd::prelude::*;

verus! {

/// Whether the three bytes encode one of the white-space characters beyond
/// U+00FF: U+1680, U+2000 to U+200A, U+2028, U+2029, U+202F, U+205F, U+3000.
pub open spec fn is_wide_space(a: u8, b: u8, c: u8) -> bool {
    ||| a == 0xe1 && b == 0x9a && c == 0x80
    ||| a == 0xe2 && b == 0x80 && (0x80 <= c <= 0x8a || c == 0xa8 || c == 0xa9 || c == 0xaf)
    ||| a == 0xe2 && b == 0x81 && c == 0x9f
    ||| a == 0xe3 && b == 0x80 && c == 0x80
}

/// Whether the byte is a white-space character of ASCII: U+0009 to U+000D
/// and the space.
pub open spec fn is_narrow_space(a: u8) -> bool {
    a == 0x20 || 0x09 <= a <= 0x0d
}

/// Whether the two bytes encode U+0085 or U+00A0.
pub open spec fn is_middle_space(a: u8, b: u8) -> bool {
    a == 0xc2 && (b == 0x85 || b == 0xa0)
}

/// How many bytes the white-space character at `index` takes, stopping before
/// `end`: 0 if none starts there.
pub open spec fn space_at(line: Seq<u8>, index: int, end: int) -> int {
    if index < end && is_narrow_space(line[index]) {
        1
    } else if index + 1 < end && is_middle_space(line[index], line[index + 1]) {
        2
    } else if index + 2 < end && is_wide_space(line[index], line[index + 1], line[index + 2]) {
        3
    } else {
        0
    }
}

/// How many bytes the white-space character that ends just before `index`
/// takes, starting no earlier than `start`: 0 if none ends there.
pub open spec fn space_before(line: Seq<u8>, start: int, index: int) -> int {
    if start <= index - 1 && is_narrow_space(line[index - 1]) {
        1
    } else if start <= index - 2 && is_middle_space(line[index - 2], line[index - 1]) {
        2
    } else if start <= index - 3 && is_wide_space(
        line[index - 3],
        line[index - 2],
        line[index - 1],
    ) {
        3
    } else {
        0
    }
}

/// Where the line begins once the white space from `index` on is skipped.
pub open spec fn skip_spaces(line: Seq<u8>, index: int) -> int
    decreases line.len() - index,
{
    if 0 <= index && space_at(line, index, line.len() as int) > 0 {
        skip_spaces(line, index + space_at(line, index, line.len() as int))
    } else {
        index
    }
}

/// Where the line ends once the white space before `index` is dropped, back
/// to `start` at most.
pub open spec fn drop_spaces(line: Seq<u8>, start: int, index: int) -> int
    decreases index,
{
    if 0 <= start && index <= line.len() && space_before(line, start, index) > 0 {
        drop_spaces(line, start, index - space_before(line, start, index))
    } else {
        index
    }
}

/// Where the trimmed line starts.
pub open spec fn trim_start(line: Seq<u8>) -> int {
    skip_spaces(line, 0)
}

/// Where the trimmed line ends.
pub open spec fn trim_end(line: Seq<u8>) -> int {
    drop_spaces(line, trim_start(line), line.len() as int)
}

/// The line without the white space at its two ends.
pub open spec fn trimmed(line: Seq<u8>) -> Seq<u8> {
    line.subrange(trim_start(line), trim_end(line))
}

/// Whether `first` is followed directly by `second` somewhere in the text.
pub open spec fn contains_pair(text: Seq<u8>, first: u8, second: u8) -> bool {
    exists|i: int| 0 <= i && i + 1 < text.len() && text[i] == first && #[trigger] text[i + 1] == second
}

/// The value of a digit in the given radix, where letters of either case
/// count from ten; `None` for any other character.
pub open spec fn digit_value(c: u8, radix: int) -> Option<int> {
    let value: int = if '0' as u8 <= c <= '9' as u8 {
        c - '0' as u8
    } else if 'a' as u8 <= c <= 'z' as u8 {
        c - 'a' as u8 + 10
    } else if 'A' as u8 <= c <= 'Z' as u8 {
        c - 'A' as u8 + 10
    } else {
        radix
    };
    if value < radix {
        Some(value)
    } else {
        None
    }
}

/// Whether the text consists of digits of the radix.
pub open spec fn all_digits(text: Seq<u8>, radix: int) -> bool {
    forall|i: int| 0 <= i < text.len() ==> (#[trigger] digit_value(text[i], radix)) is Some
}

/// The number that a run of digits denotes, most significant digit first.
pub open spec fn digits_value(text: Seq<u8>, radix: int) -> int
    recommends
        all_digits(text, radix),
    decreases text.len(),
{
    if text.len() == 0 {
        0
    } else {
        digits_value(text.drop_last(), radix) * radix + digit_value(text.last(), radix)->0
    }
}

/// Whether the text starts with a sign.
pub open spec fn has_sign(text: Seq<u8>) -> bool {
    text.len() > 0 && (text[0] == '-' as u8 || text[0] == '+' as u8)
}

/// The text behind its sign, if it has one.
pub open spec fn unsigned_part(text: Seq<u8>) -> Seq<u8> {
    if has_sign(text) {
        text.skip(1)
    } else {
        text
    }
}

/// The number that the text denotes, before any check of its size.
pub open spec fn signed_value(text: Seq<u8>, radix: int) -> int {
    if text.len() > 0 && text[0] == '-' as u8 {
        -digits_value(unsigned_part(text), radix)
    } else {
        digits_value(unsigned_part(text), radix)
    }
}

/// The number that the text denotes in the given radix: an optional sign and
/// at least one digit, with a value that fits in 32 bits signed. `None` for
/// anything else.
pub open spec fn parsed_number(text: Seq<u8>, radix: int) -> Option<i32> {
    if unsigned_part(text).len() > 0 && all_digits(unsigned_part(text), radix) && i32::MIN
        <= signed_value(text, radix) <= i32::MAX {
        Some(signed_value(text, radix) as i32)
    } else {
        None
    }
}

/// The number on a line of input. If the trimmed line holds `0x` or `0X`, what
/// follows its first two bytes is read in hexadecimal; else, if it holds `0b`
/// or `0B`, in binary; else the whole of it is read in decimal.
pub open spec fn parsed_line(line: Seq<u8>) -> Option<i32> {
    let text = trimmed(line);
    if contains_pair(text, '0' as u8, 'x' as u8) || contains_pair(text, '0' as u8, 'X' as u8) {
        parsed_number(text.skip(2), 16)
    } else if contains_pair(text, '0' as u8, 'b' as u8) || contains_pair(
        text,
        '0' as u8,
        'B' as u8,
    ) {
        parsed_number(text.skip(2), 2)
    } else {
        parsed_number(text, 10)
    }
}

/// Whether the byte is a white-space character of ASCII.
fn narrow_space(a: u8) -> (r: bool)
    ensures
        r == is_narrow_space(a),
{
    a == 0x20 || (0x09 <= a && a <= 0x0d)
}

/// Whether the two bytes encode U+0085 or U+00A0.
fn middle_space(a: u8, b: u8) -> (r: bool)
    ensures
        r == is_middle_space(a, b),
{
    a == 0xc2 && (b == 0x85 || b == 0xa0)
}

/// Whether the three bytes encode a white-space character beyond U+00FF.
fn wide_space(a: u8, b: u8, c: u8) -> (r: bool)
    ensures
        r == is_wide_space(a, b, c),
{
    (a == 0xe1 && b == 0x9a && c == 0x80) || (a == 0xe2 && b == 0x80 && ((0x80 <= c && c <= 0x8a)
        || c == 0xa8 || c == 0xa9 || c == 0xaf)) || (a == 0xe2 && b == 0x81 && c == 0x9f) || (a
        == 0xe3 && b == 0x80 && c == 0x80)
}

/// The bounds of the line without the white space at its two ends.
pub fn trim(line: &[u8]) -> (bounds: (usize, usize))
    ensures
        bounds.0 == trim_start(line@),
        bounds.1 == trim_end(line@),
        bounds.0 <= bounds.1 <= line@.len(),
{
    let len: usize = line.len();
    let mut start: usize = 0;
    loop
        invariant_except_break
            start <= len,
            skip_spaces(line@, start as int) == trim_start(line@),
        invariant
            len == line@.len(),
        ensures
            start <= len,
            start == trim_start(line@),
        decreases len - start,
    {
        if start < len && narrow_space(line[start]) {
            start = start + 1;
        } else if len - start >= 2 && middle_space(line[start], line[start + 1]) {
            start = start + 2;
        } else if len - start >= 3 && wide_space(line[start], line[start + 1], line[start + 2]) {
            start = start + 3;
        } else {
            break ;
        }
    }
    let mut end: usize = len;
    loop
        invariant_except_break
            start <= end <= len,
            drop_spaces(line@, start as int, end as int) == trim_end(line@),
        invariant
            len == line@.len(),
            start == trim_start(line@),
        ensures
            start <= end <= len,
            end == trim_end(line@),
        decreases end,
    {
        if end - start >= 1 && narrow_space(line[end - 1]) {
            end = end - 1;
        } else if end - start >= 2 && middle_space(line[end - 2], line[end - 1]) {
            end = end - 2;
        } else if end - start >= 3 && wide_space(line[end - 3], line[end - 2], line[end - 1]) {
            end = end - 3;
        } else {
            break ;
        }
    }
    (start, end)
}

/// Whether `first` is followed directly by `second` somewhere in the text.
pub fn holds_pair(text: &[u8], first: u8, second: u8) -> (found: bool)
    ensures
        found == contains_pair(text@, first, second),
{
    let len: usize = text.len();
    let mut i: usize = 1;
    while i < len
        invariant
            1 <= i,
            len == text@.len(),
            forall|j: int| 0 <= j && j + 1 < i ==> !(text@[j] == first && #[trigger] text@[j + 1] == second),
        decreases len - i,
    {
        if text[i - 1] == first && text[i] == second {
            assert(text@[(i - 1) as int] == first && text@[(i - 1) + 1] == second);
            return true;
        }
        i = i + 1;
    }
    false
}

/// The value of a digit in the given radix.
fn value_of_digit(c: u8, radix: u32) -> (value: Option<u32>)
    requires
        radix <= 36,
    ensures
        match digit_value(c, radix as int) {
            Some(v) => value == Some(v as u32) && v < radix,
            None => value is None,
        },
{
    let value: u32 = if '0' as u8 <= c && c <= '9' as u8 {
        (c - '0' as u8) as u32
    } else if 'a' as u8 <= c && c <= 'z' as u8 {
        (c - 'a' as u8) as u32 + 10
    } else if 'A' as u8 <= c && c <= 'Z' as u8 {
        (c - 'A' as u8) as u32 + 10
    } else {
        radix
    };
    if value < radix {
        Some(value)
    } else {
        None
    }
}

/// A run of digits denotes at least what any start of it denotes.
proof fn lemma_digits_value_grows(text: Seq<u8>, k: int, radix: int)
    requires
        all_digits(text, radix),
        0 <= k <= text.len(),
        1 <= radix,
    ensures
        0 <= digits_value(text.take(k), radix) <= digits_value(text, radix),
    decreases text.len(),
{
    if k == text.len() {
        assert(text.take(k) =~= text);
        if text.len() > 0 {
            lemma_digits_value_grows(text.drop_last(), k - 1, radix);
            assert(text.drop_last().take(k - 1) =~= text.drop_last());
            let v = digits_value(text.drop_last(), radix);
            assert(0 <= v * radix) by (nonlinear_arith)
                requires
                    0 <= v,
                    1 <= radix,
            ;
            assert(digit_value(text.last(), radix) is Some);
        }
    } else {
        lemma_digits_value_grows(text.drop_last(), k, radix);
        assert(text.drop_last().take(k) =~= text.take(k));
        let v = digits_value(text.drop_last(), radix);
        assert(v <= v * radix) by (nonlinear_arith)
            requires
                0 <= v,
                1 <= radix,
        ;
        assert(digit_value(text.last(), radix) is Some);
    }
}

/// Reads a number in the given radix: an optional sign and at least one
/// digit, with a value that fits in 32 bits signed.
pub fn parse_number(text: &[u8], radix: u32) -> (number: Option<i32>)
    requires
        2 <= radix <= 36,
    ensures
        number == parsed_number(text@, radix as int),
{
    let len: usize = text.len();
    let signed: bool = len > 0 && (text[0] == '-' as u8 || text[0] == '+' as u8);
    let negative: bool = len > 0 && text[0] == '-' as u8;
    let start: usize = if signed {
        1
    } else {
        0
    };
    let ghost body = unsigned_part(text@);
    if start == len {
        return None;
    }
    let mut total: i64 = 0;
    let mut i: usize = start;
    while i < len
        invariant
            2 <= radix <= 36,
            start <= i <= len,
            len == text@.len(),
            body == text@.skip(start as int),
            body == unsigned_part(text@),
            negative == (text@.len() > 0 && text@[0] == '-' as u8),
            all_digits(body.take(i - start), radix as int),
            total == digits_value(body.take(i - start), radix as int),
            0 <= total <= 0x8000_0000,
        decreases len - i,
    {
        let ghost seen = body.take(i - start);
        let ghost next = body.take(i + 1 - start);
        proof {
            assert(next.drop_last() =~= seen);
            assert(next.last() == text@[i as int]);
        }
        match value_of_digit(text[i], radix) {
            None => {
                assert(digit_value(body[i - start], radix as int) is None);
                return None;
            },
            Some(value) => {
                assert(total * radix <= 0x8000_0000 * 36) by (nonlinear_arith)
                    requires
                        0 <= total <= 0x8000_0000,
                        0 <= radix <= 36,
                ;
                total = total * (radix as i64) + value as i64;
                proof {
                    assert forall|j: int| 0 <= j < next.len() implies (#[trigger] digit_value(
                        next[j],
                        radix as int,
                    )) is Some by {
                        if j < seen.len() {
                            assert(next[j] == seen[j]);
                        }
                    }
                }
                if total > 0x8000_0000 {
                    proof {
                        if all_digits(body, radix as int) {
                            lemma_digits_value_grows(body, i + 1 - start, radix as int);
                        }
                    }
                    return None;
                }
            },
        }
        i = i + 1;
    }
    assert(body.take(len - start) =~= body);
    let value: i64 = if negative {
        -total
    } else {
        total
    };
    if value > i32::MAX as i64 {
        None
    } else {
        Some(value as i32)
    }
}

/// Reads the number on a line of input.
pub fn parse_line(line: &[u8]) -> (number: Option<i32>)
    ensures
        number == parsed_line(line@),
{
    let (start, end) = trim(line);
    let text = vstd::slice::slice_subrange(line, start, end);
    if holds_pair(text, '0' as u8, 'x' as u8) || holds_pair(text, '0' as u8, 'X' as u8) {
        let digits = vstd::slice::slice_subrange(text, 2, text.len());
        assert(digits@ =~= text@.skip(2));
        parse_number(digits, 16)
    } else if holds_pair(text, '0' as u8, 'b' as u8) || holds_pair(text, '0' as u8, 'B' as u8) {
        let digits = vstd::slice::slice_subrange(text, 2, text.len());
        assert(digits@ =~= text@.skip(2));
        parse_number(digits, 2)
    } else {
        parse_number(text, 10)
    }
}

} // verus!
