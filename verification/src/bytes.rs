//! Little-endian integers and the bytes that carry them.

use vstd::prelude::*;

verus! {

/// Byte `k` of `value`, counted from the least significant one.
pub open spec fn le_byte(value: u32, k: int) -> u8 {
    if k == 0 {
        (value % 256) as u8
    } else if k == 1 {
        ((value / 256) % 256) as u8
    } else if k == 2 {
        ((value / 65536) % 256) as u8
    } else {
        (value / 16777216) as u8
    }
}

/// The words laid out one after the other, each as four little-endian bytes.
pub open spec fn words_bytes(words: Seq<u32>) -> Seq<u8> {
    Seq::new(4 * words.len(), |i: int| le_byte(words[i / 4], i % 4))
}

/// The unsigned 32-bit integer stored at `offset`.
pub open spec fn word_at(bytes: Seq<u8>, offset: int) -> u32 {
    (bytes[offset] + 256 * bytes[offset + 1] + 65536 * bytes[offset + 2] + 16777216 * bytes[offset
        + 3]) as u32
}

/// The signed 32-bit integer stored at `offset`.
pub open spec fn int_at(bytes: Seq<u8>, offset: int) -> i32 {
    word_at(bytes, offset) as i32
}

/// The unsigned 64-bit integer stored at `offset`.
pub open spec fn long_at(bytes: Seq<u8>, offset: int) -> u64 {
    (word_at(bytes, offset) + 4294967296 * word_at(bytes, offset + 4)) as u64
}

/// The lower half of a 64-bit integer.
pub open spec fn low_word(value: u64) -> u32 {
    (value % 4294967296) as u32
}

/// The upper half of a 64-bit integer.
pub open spec fn high_word(value: u64) -> u32 {
    (value / 4294967296) as u32
}

/// Reading a word back from its own four bytes gives the word.
pub proof fn lemma_word_round_trip(value: u32)
    ensures
        le_byte(value, 0) + 256 * le_byte(value, 1) + 65536 * le_byte(value, 2) + 16777216
            * le_byte(value, 3) == value,
{
    assert(value / 256 / 256 == value / 65536 && value / 65536 / 256 == value / 16777216);
}

/// A word read from a laid-out sequence of words is the word that was laid out there.
pub proof fn lemma_word_at_words(words: Seq<u32>, i: int)
    requires
        0 <= i < words.len(),
    ensures
        word_at(words_bytes(words), 4 * i) == words[i],
{
    lemma_word_round_trip(words[i]);
}

/// Where `bytes` holds the laid-out `words` from `base` on, each word is read back from there.
pub proof fn lemma_word_at_embedded(bytes: Seq<u8>, base: int, words: Seq<u32>, i: int)
    requires
        0 <= base,
        base + 4 * words.len() <= bytes.len(),
        bytes.subrange(base, base + 4 * words.len()) == words_bytes(words),
        0 <= i < words.len(),
    ensures
        word_at(bytes, base + 4 * i) == words[i],
{
    let part = bytes.subrange(base, base + 4 * words.len());
    lemma_word_at_words(words, i);
    assert(part[4 * i] == bytes[base + 4 * i]);
    assert(part[4 * i + 1] == bytes[base + 4 * i + 1]);
    assert(part[4 * i + 2] == bytes[base + 4 * i + 2]);
    assert(part[4 * i + 3] == bytes[base + 4 * i + 3]);
}

/// Laying out two sequences of words one after the other is laying out their concatenation.
pub proof fn lemma_words_bytes_concat(a: Seq<u32>, b: Seq<u32>)
    ensures
        words_bytes(a + b) == words_bytes(a) + words_bytes(b),
{
    assert(words_bytes(a + b) =~= words_bytes(a) + words_bytes(b));
}

/// A signed integer survives the trip through the unsigned word that stores it.
pub proof fn lemma_int_round_trip(value: i32)
    ensures
        (value as u32) as i32 == value,
{
    assert((value as u32) as i32 == value) by (bit_vector);
}

/// A 64-bit integer is put together again from its halves.
pub proof fn lemma_long_round_trip(value: u64)
    ensures
        low_word(value) + 4294967296 * high_word(value) == value,
{
}

/// Appends `value` as four little-endian bytes.
pub fn push_word(out: &mut Vec<u8>, value: u32)
    ensures
        final(out)@ == old(out)@ + words_bytes(seq![value]),
{
    out.push((value % 256) as u8);
    out.push(((value / 256) % 256) as u8);
    out.push(((value / 65536) % 256) as u8);
    out.push((value / 16777216) as u8);
    assert(out@ =~= old(out)@ + words_bytes(seq![value]));
}

/// Reads the word stored at `offset`.
pub fn read_word(bytes: &[u8], offset: usize) -> (value: u32)
    requires
        offset + 4 <= bytes@.len(),
    ensures
        value == word_at(bytes@, offset as int),
{
    bytes[offset] as u32 + 256 * (bytes[offset + 1] as u32) + 65536 * (bytes[offset + 2] as u32)
        + 16777216 * (bytes[offset + 3] as u32)
}

} // verus!
