//! Strings on the stack.
//!
//! A string lies in consecutive words, three bytes to a word, the word with
//! its first bytes at the lowest address. In a word the first of its bytes
//! is the least significant; the most significant byte is 1 if more of the
//! string follows and 0 in the last word. The last word of a string always
//! holds fewer than three bytes, so that a zero byte ends every string.
//! A word lies in memory most significant byte first: a string is read back
//! by turning each run of three bytes around.

use vstd::prelude::*;
use crate::word::word_to_be;

verus! {

/// The byte of the text at `index`, or zero behind its end.
pub open spec fn byte_or_zero(text: Seq<u8>, index: int) -> u8 {
    if 0 <= index < text.len() {
        text[index]
    } else {
        0
    }
}

/// How many words the text takes.
pub open spec fn chunk_count(text: Seq<u8>) -> nat {
    text.len() / 3 + 1
}

/// The word that holds the bytes `3 * index` to `3 * index + 2` of the text.
pub open spec fn chunk(text: Seq<u8>, index: int) -> u32 {
    (byte_or_zero(text, 3 * index) + byte_or_zero(text, 3 * index + 1) * 0x100 + byte_or_zero(
        text,
        3 * index + 2,
    ) * 0x1_0000 + if 3 * index + 3 < text.len() {
        0x100_0000int
    } else {
        0
    }) as u32
}

/// The words of the text, the one with its first bytes first.
pub open spec fn chunks(text: Seq<u8>) -> Seq<u32> {
    Seq::new(chunk_count(text), |index: int| chunk(text, index))
}

/// The text cut down to `limit` bytes.
pub open spec fn truncated(text: Seq<u8>, limit: int) -> Seq<u8> {
    if 0 <= limit < text.len() {
        text.take(limit)
    } else {
        text
    }
}

/// Whether a byte of memory belongs to a string's text: the bytes 0 and 1
/// mark and fill the words and are never shown.
pub open spec fn is_text(byte: u8) -> bool {
    byte != 0 && byte != 1
}

/// Where reading a string that starts at `start` stops: behind the third byte
/// after the first zero byte, or at the end of the memory.
pub open spec fn text_end(memory: Seq<u8>, start: int) -> int
    decreases memory.len() - start,
{
    if start < 0 || start >= memory.len() {
        memory.len() as int
    } else if memory[start] == 0 {
        if start + 4 <= memory.len() {
            start + 4
        } else {
            memory.len() as int
        }
    } else {
        text_end(memory, start + 1)
    }
}

/// The bytes of `bytes` that belong to a text, in their order.
pub open spec fn text_bytes(bytes: Seq<u8>) -> Seq<u8>
    decreases bytes.len(),
{
    if bytes.len() == 0 {
        bytes
    } else if is_text(bytes.last()) {
        text_bytes(bytes.drop_last()).push(bytes.last())
    } else {
        text_bytes(bytes.drop_last())
    }
}

/// The bytes with each run of three turned around; a shorter run at the end
/// is turned around too.
pub open spec fn unpacked(bytes: Seq<u8>) -> Seq<u8>
    decreases bytes.len(),
{
    if bytes.len() <= 3 {
        bytes.reverse()
    } else {
        bytes.take(3).reverse() + unpacked(bytes.skip(3))
    }
}

/// The text of the string that starts at `start`.
pub open spec fn string_at(memory: Seq<u8>, start: int) -> Seq<u8> {
    unpacked(text_bytes(memory.subrange(start, text_end(memory, start))))
}

/// Packs a text into its words, the one with its first bytes first.
pub fn encode(text: &[u8]) -> (words: Vec<u32>)
    ensures
        words@ == chunks(text@),
{
    let len: usize = text.len();
    let count: usize = len / 3 + 1;
    let mut words: Vec<u32> = Vec::new();
    let mut k: usize = 0;
    while k < count
        invariant
            k <= count,
            count == chunk_count(text@),
            len == text@.len(),
            words@ == Seq::new(k as nat, |index: int| chunk(text@, index)),
        decreases count - k,
    {
        let base: usize = 3 * k;
        let b0: u32 = if len - base > 0 {
            text[base] as u32
        } else {
            0
        };
        let b1: u32 = if len - base > 1 {
            text[base + 1] as u32
        } else {
            0
        };
        let b2: u32 = if len - base > 2 {
            text[base + 2] as u32
        } else {
            0
        };
        let more: u32 = if len - base > 3 {
            1
        } else {
            0
        };
        let word: u32 = b0 | b1 << 8 | b2 << 16 | more << 24;
        assert(b0 | b1 << 8 | b2 << 16 | more << 24 == b0 + b1 * 0x100 + b2 * 0x1_0000 + more
            * 0x100_0000) by (bit_vector)
            requires
                b0 < 0x100,
                b1 < 0x100,
                b2 < 0x100,
                more < 2,
        ;
        assert(word == chunk(text@, k as int));
        words.push(word);
        assert(words@ =~= Seq::new((k + 1) as nat, |index: int| chunk(text@, index)));
        k = k + 1;
    }
    words
}

/// Turning runs of three around can be done in two parts, if the first part
/// is made of whole runs.
pub proof fn lemma_unpacked_split(bytes: Seq<u8>, runs: int)
    requires
        0 <= runs,
        3 * runs <= bytes.len(),
    ensures
        unpacked(bytes) == unpacked(bytes.take(3 * runs)) + unpacked(bytes.skip(3 * runs)),
    decreases runs,
{
    if runs == 0 {
        assert(bytes.take(0) =~= Seq::<u8>::empty());
        assert(bytes.skip(0) =~= bytes);
        assert(unpacked(bytes.take(0)) =~= Seq::<u8>::empty());
        assert(unpacked(bytes) =~= unpacked(bytes.take(0)) + unpacked(bytes.skip(0)));
    } else if bytes.len() == 3 {
        assert(bytes.take(3) =~= bytes);
        assert(bytes.skip(3) =~= Seq::<u8>::empty());
        assert(unpacked(bytes.skip(3)) =~= Seq::<u8>::empty());
        assert(unpacked(bytes) =~= unpacked(bytes.take(3)) + unpacked(bytes.skip(3)));
    } else {
        let rest = bytes.skip(3);
        lemma_unpacked_split(rest, runs - 1);
        assert(rest.skip(3 * (runs - 1)) =~= bytes.skip(3 * runs));
        let head = bytes.take(3 * runs);
        if runs == 1 {
            assert(rest.take(0) =~= Seq::<u8>::empty());
            assert(unpacked(rest.take(0)) =~= Seq::<u8>::empty());
            assert(unpacked(bytes) =~= unpacked(head) + unpacked(bytes.skip(3 * runs)));
        } else {
            assert(head.take(3) =~= bytes.take(3));
            assert(head.skip(3) =~= rest.take(3 * (runs - 1)));
            assert(unpacked(bytes) =~= unpacked(head) + unpacked(bytes.skip(3 * runs)));
        }
    }
}

/// Reads the text of the string that starts at `start`.
pub fn decode(memory: &[u8], start: usize) -> (text: Vec<u8>)
    requires
        start <= memory@.len(),
    ensures
        text@ == string_at(memory@, start as int),
{
    let len: usize = memory.len();
    let mut zero: usize = start;
    while zero < len && memory[zero] != 0
        invariant
            start <= zero <= len,
            len == memory@.len(),
            text_end(memory@, zero as int) == text_end(memory@, start as int),
        decreases len - zero,
    {
        zero = zero + 1;
    }
    let end: usize = if len - zero >= 4 {
        zero + 4
    } else {
        len
    };
    assert(end == text_end(memory@, start as int));
    let mut text: Vec<u8> = Vec::new();
    let mut run: Vec<u8> = Vec::new();
    let ghost mut runs: int = 0;
    let mut i: usize = start;
    while i < end
        invariant
            start <= i <= end <= len,
            len == memory@.len(),
            0 <= runs,
            run@.len() < 3,
            3 * runs + run@.len() == text_bytes(memory@.subrange(start as int, i as int)).len(),
            text@ == unpacked(text_bytes(memory@.subrange(start as int, i as int)).take(3 * runs)),
            run@ == text_bytes(memory@.subrange(start as int, i as int)).skip(3 * runs),
        decreases end - i,
    {
        let byte: u8 = memory[i];
        let ghost seen = text_bytes(memory@.subrange(start as int, i as int));
        let ghost next = text_bytes(memory@.subrange(start as int, i + 1));
        proof {
            let longer = memory@.subrange(start as int, i + 1);
            assert(longer.drop_last() =~= memory@.subrange(start as int, i as int));
            assert(longer.last() == byte);
        }
        if byte != 0 && byte != 1 {
            run.push(byte);
            proof {
                assert(next == seen.push(byte));
                assert(next.take(3 * runs) =~= seen.take(3 * runs));
                assert(run@ =~= next.skip(3 * runs));
            }
            if run.len() == 3 {
                text.push(run[2]);
                text.push(run[1]);
                text.push(run[0]);
                proof {
                    lemma_unpacked_split(next, runs);
                    assert(next.take(3 * (runs + 1)) =~= next);
                    assert(unpacked(run@) =~= seq![run@[2], run@[1], run@[0]]);
                    assert(text@ =~= unpacked(next.take(3 * runs)) + unpacked(run@));
                    runs = runs + 1;
                }
                run.clear();
                assert(run@ =~= next.skip(3 * runs));
            }
        }
        i = i + 1;
    }
    let ghost all = text_bytes(memory@.subrange(start as int, end as int));
    proof {
        lemma_unpacked_split(all, runs);
    }
    if run.len() == 2 {
        text.push(run[1]);
        text.push(run[0]);
        assert(text@ =~= unpacked(all.take(3 * runs)) + run@.reverse());
    } else if run.len() == 1 {
        text.push(run[0]);
        assert(text@ =~= unpacked(all.take(3 * runs)) + run@.reverse());
    } else {
        assert(text@ =~= unpacked(all.take(3 * runs)) + run@.reverse());
    }
    text
}

/// The bytes that the words of a text take in memory: the four bytes of each
/// word, most significant first.
pub open spec fn packed(text: Seq<u8>) -> Seq<u8> {
    Seq::new(4 * chunk_count(text), |i: int| word_to_be(chunk(text, i / 4))[i % 4])
}

/// Whether every byte of the text can be told from the bytes that mark and
/// fill the words.
pub open spec fn is_plain(text: Seq<u8>) -> bool {
    forall|i: int| 0 <= i < text.len() ==> is_text(#[trigger] text[i])
}

/// The four bytes of a word of a text: the mark, then its three bytes of the
/// text, the last of them first.
proof fn lemma_chunk_bytes(text: Seq<u8>, index: int)
    requires
        0 <= index,
    ensures
        word_to_be(chunk(text, index)) == seq![
            if 3 * index + 3 < text.len() {
                1u8
            } else {
                0u8
            },
            byte_or_zero(text, 3 * index + 2),
            byte_or_zero(text, 3 * index + 1),
            byte_or_zero(text, 3 * index),
        ],
{
    let b0 = byte_or_zero(text, 3 * index) as int;
    let b1 = byte_or_zero(text, 3 * index + 1) as int;
    let b2 = byte_or_zero(text, 3 * index + 2) as int;
    let more: int = if 3 * index + 3 < text.len() {
        1
    } else {
        0
    };
    let word = b0 + b1 * 0x100 + b2 * 0x1_0000 + more * 0x100_0000;
    assert(chunk(text, index) == word);
    assert(word / 0x100_0000 == more);
    assert(word / 0x1_0000 % 0x100 == b2);
    assert(word / 0x100 % 0x100 == b1);
    assert(word % 0x100 == b0);
    assert(word_to_be(chunk(text, index)) =~= seq![
        more as u8,
        byte_or_zero(text, 3 * index + 2),
        byte_or_zero(text, 3 * index + 1),
        byte_or_zero(text, 3 * index),
    ]);
}

/// The bytes of a text among two runs of bytes are those among the first
/// followed by those among the second.
proof fn lemma_text_bytes_of_two(first: Seq<u8>, second: Seq<u8>)
    ensures
        text_bytes(first + second) == text_bytes(first) + text_bytes(second),
    decreases second.len(),
{
    if second.len() == 0 {
        assert(first + second =~= first);
        assert(text_bytes(first) + text_bytes(second) =~= text_bytes(first));
    } else {
        lemma_text_bytes_of_two(first, second.drop_last());
        assert((first + second).drop_last() =~= first + second.drop_last());
        assert((first + second).last() == second.last());
        if is_text(second.last()) {
            assert(text_bytes(first + second) =~= text_bytes(first) + text_bytes(second));
        }
    }
}

/// Reading stops at or behind where it starts, and within the memory.
proof fn lemma_text_end_bounds(memory: Seq<u8>, start: int)
    requires
        0 <= start <= memory.len(),
    ensures
        start <= text_end(memory, start) <= memory.len(),
    decreases memory.len() - start,
{
    if start < memory.len() && memory[start] != 0 {
        lemma_text_end_bounds(memory, start + 1);
    }
}

/// Where a text lies packed in memory, its first word holds the mark and
/// the first three bytes of the text, the last of them first.
proof fn lemma_packed_head(memory: Seq<u8>, start: int, text: Seq<u8>)
    requires
        0 <= start,
        start + 4 * chunk_count(text) <= memory.len(),
        memory.subrange(start, start + 4 * chunk_count(text)) == packed(text),
    ensures
        memory[start] == if 3 < text.len() {
            1u8
        } else {
            0u8
        },
        memory[start + 1] == byte_or_zero(text, 2),
        memory[start + 2] == byte_or_zero(text, 1),
        memory[start + 3] == byte_or_zero(text, 0),
{
    lemma_chunk_bytes(text, 0);
    let head = word_to_be(chunk(text, 0));
    assert forall|j: int| 0 <= j < 4 implies memory[start + j] == #[trigger] head[j] by {
        assert(memory.subrange(start, start + 4 * chunk_count(text))[j] == packed(text)[j]);
    }
    assert(memory[start + 0] == head[0]);
}

/// Where a text of more than three bytes lies packed in memory, the words
/// behind the first are the rest of the text, packed.
proof fn lemma_packed_rest(memory: Seq<u8>, start: int, text: Seq<u8>)
    requires
        is_plain(text),
        text.len() > 3,
        0 <= start,
        start + 4 * chunk_count(text) <= memory.len(),
        memory.subrange(start, start + 4 * chunk_count(text)) == packed(text),
    ensures
        is_plain(text.skip(3)),
        chunk_count(text.skip(3)) == chunk_count(text) - 1,
        memory.subrange(start + 4, start + 4 + 4 * chunk_count(text.skip(3))) == packed(
            text.skip(3),
        ),
{
    let rest = text.skip(3);
    assert forall|i: int| 0 <= i < rest.len() implies is_text(#[trigger] rest[i]) by {
        assert(rest[i] == text[i + 3]);
    }
    assert forall|i: int| 0 <= i < 4 * chunk_count(rest) implies memory[start + 4 + i]
        == #[trigger] packed(rest)[i] by {
        assert(memory.subrange(start, start + 4 * chunk_count(text))[i + 4] == packed(text)[i
            + 4]);
        let k = i / 4;
        assert((i + 4) / 4 == k + 1 && (i + 4) % 4 == i % 4);
        assert(byte_or_zero(text, 3 * (k + 1)) == byte_or_zero(rest, 3 * k));
        assert(byte_or_zero(text, 3 * (k + 1) + 1) == byte_or_zero(rest, 3 * k + 1));
        assert(byte_or_zero(text, 3 * (k + 1) + 2) == byte_or_zero(rest, 3 * k + 2));
        assert(chunk(text, k + 1) == chunk(rest, k));
    }
    assert(memory.subrange(start + 4, start + 4 + 4 * chunk_count(rest)) =~= packed(rest));
}

/// The bytes of a text among four bytes.
proof fn lemma_text_bytes_of_four(a: u8, b: u8, c: u8, d: u8)
    ensures
        text_bytes(seq![a, b, c, d]) == text_bytes(seq![a]) + text_bytes(seq![b]) + text_bytes(
            seq![c],
        ) + text_bytes(seq![d]),
        text_bytes(seq![a]) == if is_text(a) {
            seq![a]
        } else {
            Seq::<u8>::empty()
        },
{
    assert(seq![a, b, c, d] =~= seq![a] + seq![b] + seq![c] + seq![d]);
    lemma_text_bytes_of_two(seq![a] + seq![b] + seq![c], seq![d]);
    lemma_text_bytes_of_two(seq![a] + seq![b], seq![c]);
    lemma_text_bytes_of_two(seq![a], seq![b]);
    assert(seq![a].drop_last() =~= Seq::<u8>::empty());
    reveal_with_fuel(text_bytes, 2);
    assert(text_bytes(seq![a]) =~= if is_text(a) {
        seq![a]
    } else {
        Seq::<u8>::empty()
    });
}

/// The last word of a packed text reads back as the last bytes of the text.
proof fn lemma_last_word_round_trip(memory: Seq<u8>, start: int, text: Seq<u8>)
    requires
        is_plain(text),
        text.len() <= 3,
        0 <= start,
        start + 4 <= memory.len(),
        memory[start] == 0,
        memory[start + 1] == byte_or_zero(text, 2),
        memory[start + 2] == byte_or_zero(text, 1),
        memory[start + 3] == byte_or_zero(text, 0),
    ensures
        string_at(memory, start) == text,
{
    assert(text_end(memory, start) == start + 4);
    let window = memory.subrange(start, start + 4);
    assert(window =~= seq![memory[start], memory[start + 1], memory[start + 2], memory[start + 3]]);
    lemma_text_bytes_of_four(memory[start], memory[start + 1], memory[start + 2], memory[start + 3]);
    lemma_text_bytes_of_four(memory[start + 1], 0, 0, 0);
    lemma_text_bytes_of_four(memory[start + 2], 0, 0, 0);
    lemma_text_bytes_of_four(memory[start + 3], 0, 0, 0);
    if text.len() == 0 {
        assert(text_bytes(window) =~= Seq::<u8>::empty());
    } else if text.len() == 1 {
        assert(is_text(text[0]));
        assert(text_bytes(window) =~= seq![text[0]]);
    } else if text.len() == 2 {
        assert(is_text(text[0]) && is_text(text[1]));
        assert(text_bytes(window) =~= seq![text[1], text[0]]);
    } else {
        assert(is_text(text[0]) && is_text(text[1]) && is_text(text[2]));
        assert(text_bytes(window) =~= seq![text[2], text[1], text[0]]);
    }
    assert(unpacked(text_bytes(window)) =~= text);
}

/// A word of a packed text that is not its last reads back as three bytes of
/// the text, followed by what the words behind it read back as.
proof fn lemma_full_word_round_trip(memory: Seq<u8>, start: int, a: u8, b: u8, c: u8)
    requires
        is_text(a),
        is_text(b),
        is_text(c),
        0 <= start,
        start + 4 <= memory.len(),
        memory[start] == 1,
        memory[start + 1] == c,
        memory[start + 2] == b,
        memory[start + 3] == a,
    ensures
        string_at(memory, start) == seq![a, b, c] + string_at(memory, start + 4),
{
    reveal_with_fuel(text_end, 5);
    let end = text_end(memory, start);
    assert(end == text_end(memory, start + 4));
    lemma_text_end_bounds(memory, start + 4);
    let window = memory.subrange(start, start + 4);
    let tail = memory.subrange(start + 4, end);
    assert(memory.subrange(start, end) =~= window + tail);
    lemma_text_bytes_of_two(window, tail);
    assert(window =~= seq![1u8, c, b, a]);
    lemma_text_bytes_of_four(1, c, b, a);
    lemma_text_bytes_of_four(c, 0, 0, 0);
    lemma_text_bytes_of_four(b, 0, 0, 0);
    lemma_text_bytes_of_four(a, 0, 0, 0);
    let first = seq![c, b, a];
    assert(text_bytes(window) =~= first);
    let all = first + text_bytes(tail);
    assert(all.take(3) =~= first);
    assert(all.skip(3) =~= text_bytes(tail));
    assert(first.reverse() =~= seq![a, b, c]);
    if text_bytes(tail).len() == 0 {
        assert(all =~= first);
        assert(unpacked(text_bytes(tail)) =~= Seq::<u8>::empty());
    }
    assert(unpacked(all) =~= seq![a, b, c] + unpacked(text_bytes(tail)));
}

/// A text without the bytes 0 and 1 is read back from the words that it was
/// packed into.
pub proof fn lemma_string_round_trip(memory: Seq<u8>, start: int, text: Seq<u8>)
    requires
        is_plain(text),
        0 <= start,
        start + 4 * chunk_count(text) <= memory.len(),
        memory.subrange(start, start + 4 * chunk_count(text)) == packed(text),
    ensures
        string_at(memory, start) == text,
    decreases text.len(),
{
    lemma_packed_head(memory, start, text);
    if text.len() <= 3 {
        lemma_last_word_round_trip(memory, start, text);
    } else {
        lemma_packed_rest(memory, start, text);
        lemma_string_round_trip(memory, start + 4, text.skip(3));
        assert(is_text(text[0]) && is_text(text[1]) && is_text(text[2]));
        lemma_full_word_round_trip(memory, start, text[0], text[1], text[2]);
        assert(seq![text[0], text[1], text[2]] + text.skip(3) =~= text);
    }
}

} // verus!
