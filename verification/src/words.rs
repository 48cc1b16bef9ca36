//! Runs of numbers as runs of bytes.

use crate::bytes::{
    lemma_word_at_words, lemma_words_bytes_concat, push_word, read_word, words_bytes,
};
use crate::floats::F32;
use crate::gsplat_pack::format::float_at;
use vstd::prelude::*;

verus! {

/// The bits of each number.
pub open spec fn float_words(values: Seq<F32>) -> Seq<u32> {
    Seq::new(values.len(), |i: int| values[i].bits)
}

/// The numbers laid out one after the other, four little-endian bytes each.
pub open spec fn float_bytes(values: Seq<F32>) -> Seq<u8> {
    words_bytes(float_words(values))
}

/// The numbers that the bytes hold, four bytes each; bytes left over at the end are passed over.
pub open spec fn bytes_floats(bytes: Seq<u8>) -> Seq<F32> {
    Seq::new(bytes.len() / 4, |i: int| float_at(bytes, 4 * i))
}

/// Reading the bytes of numbers gives back the numbers.
pub proof fn floats_round_trip(values: Seq<F32>)
    ensures
        bytes_floats(float_bytes(values)) == values,
{
    let bytes = float_bytes(values);
    assert forall|i: int| 0 <= i < values.len() implies #[trigger] bytes_floats(bytes)[i]
        == values[i] by {
        lemma_word_at_words(float_words(values), i);
    }
    assert(bytes_floats(bytes) =~= values);
}

/// The bytes of the numbers.
pub fn floats_to_bytes(values: &Vec<F32>) -> (bytes: Vec<u8>)
    ensures
        bytes@ == float_bytes(values@),
{
    let mut bytes: Vec<u8> = Vec::new();
    let ghost words = float_words(values@);
    let mut i: usize = 0;
    assert(words_bytes(words.take(0)) =~= Seq::<u8>::empty());
    while i < values.len()
        invariant
            i <= values@.len(),
            words == float_words(values@),
            bytes@ == words_bytes(words.take(i as int)),
        decreases values@.len() - i,
    {
        push_word(&mut bytes, values[i].bits);
        proof {
            let done = words.take(i as int);
            assert(words.take(i + 1) =~= done + seq![words[i as int]]);
            lemma_words_bytes_concat(done, seq![words[i as int]]);
        }
        i = i + 1;
    }
    assert(words.take(words.len() as int) =~= words);
    bytes
}

/// The numbers that the bytes hold.
pub fn bytes_to_floats(bytes: &[u8]) -> (values: Vec<F32>)
    ensures
        values@ == bytes_floats(bytes@),
{
    let mut values: Vec<F32> = Vec::new();
    let count: usize = bytes.len() / 4;
    let mut i: usize = 0;
    while i < count
        invariant
            i <= count == bytes@.len() / 4,
            values@ == bytes_floats(bytes@).take(i as int),
        decreases count - i,
    {
        assert(4 * i + 4 <= bytes.len());
        values.push(F32 { bits: read_word(bytes, 4 * i) });
        i = i + 1;
        assert(values@ =~= bytes_floats(bytes@).take(i as int));
    }
    assert(values@ =~= bytes_floats(bytes@));
    values
}

} // verus!
