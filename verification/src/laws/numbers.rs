//! Numbers, their order, and the bytes that carry them.

use crate::bytes::{
    high_word, int_at, lemma_word_round_trip, long_at, low_word, word_at, words_bytes,
};
use crate::extents::{column, highest, lowest};
use crate::floats::{F32, INFINITY_BITS, NEG_INFINITY_BITS};
use crate::words::{bytes_floats, float_bytes};
use vstd::prelude::*;

verus! {

/// The exponent field of a number.
pub open spec fn exponent_of(value: F32) -> int {
    value.bits as int / 0x80_0000 % 256
}

/// The fraction field of a number.
pub open spec fn fraction_of(value: F32) -> int {
    value.bits as int % 0x80_0000
}

/// What is no number has the highest exponent and some fraction; what is finite has a lower
/// exponent.
pub proof fn fields_tell_numbers_apart(value: F32)
    ensures
        value.nan() <==> exponent_of(value) == 255 && fraction_of(value) != 0,
        value.finite() <==> exponent_of(value) != 255,
{
}

/// Taking the sign away leaves what is no number as it is, and gives a number that is as far from
/// zero and not below it.
pub proof fn unsigned_is_the_distance_from_zero(value: F32)
    ensures
        value.unsigned().nan() == value.nan(),
        value.unsigned().scaled() == (if value.scaled() < 0 {
            -value.scaled()
        } else {
            value.scaled()
        }),
        value.unsigned().bits < 0x8000_0000,
        value.unsigned().bits == value.bits || value.unsigned().bits + 0x8000_0000 == value.bits,
{
    let magnitude = value.magnitude();
    assert(value.scaled_magnitude() >= 0) by {
        let e = magnitude / 0x80_0000;
        if e > 0 {
            vstd::arithmetic::power2::lemma_pow2_pos((e - 1) as nat);
            let p = vstd::arithmetic::power2::pow2((e - 1) as nat) as int;
            let f = magnitude % 0x80_0000;
            assert((0x80_0000 + f) * p >= 0) by (nonlinear_arith)
                requires
                    f >= 0,
                    p > 0,
            ;
        }
    }
    assert(value.unsigned().magnitude() == magnitude);
}

/// Sorting puts lower numbers first, and what is no number last; sorting from the highest down puts
/// higher numbers first, and what is no number last. Equal numbers share a place.
pub proof fn ranks_sort_numbers(a: F32, b: F32)
    ensures
        a.below(b) ==> a.sort_rank() < b.sort_rank(),
        a.below(b) ==> b.descending_rank() < a.descending_rank(),
        !a.nan() && !b.nan() && a.scaled() == b.scaled() ==> a.sort_rank() == b.sort_rank()
            && a.descending_rank() == b.descending_rank(),
        !a.nan() && b.nan() ==> a.sort_rank() < b.sort_rank() && a.descending_rank()
            < b.descending_rank(),
        a.nan() && b.nan() ==> a.sort_rank() == b.sort_rank() && a.descending_rank()
            == b.descending_rank(),
        0 - 0x8000_0000 < a.sort_rank() <= 0x8000_0000,
        0 - 0x8000_0000 < a.descending_rank() <= 0x8000_0000,
{
    if !a.nan() && !b.nan() {
        crate::floats::rank_orders_values(a, b);
        crate::floats::rank_orders_values(b, a);
    }
}

/// A number moved into a range lies in the range, and stays where it is if it lies there already.
pub proof fn within_stays_in_range(value: F32, low: F32, high: F32)
    requires
        low.at_most(high),
        !value.nan(),
    ensures
        low.at_most(value.within(low, high)),
        value.within(low, high).at_most(high),
        low.at_most(value) && value.at_most(high) ==> value.within(low, high) == value,
        value.within(low, high) == value || value.within(low, high) == low || value.within(
            low,
            high,
        ) == high,
{
}

/// The least significant byte of an integer comes first.
pub proof fn integers_start_with_their_lowest_byte(bytes: Seq<u8>, offset: int)
    ensures
        word_at(bytes, offset) == bytes[offset] + 0x100 * (bytes[offset + 1] + 0x100 * (bytes[offset
            + 2] + 0x100 * bytes[offset + 3])),
        long_at(bytes, offset) == word_at(bytes, offset) + 0x1_0000_0000 * word_at(
            bytes,
            offset + 4,
        ),
        int_at(bytes, offset) == (if word_at(bytes, offset) < 0x8000_0000 {
            word_at(bytes, offset) as int
        } else {
            word_at(bytes, offset) - 0x1_0000_0000
        }),
{
    let word = word_at(bytes, offset);
    assert(word < 0x8000_0000u32 ==> (word as i32) as int == word as int) by (bit_vector);
    assert(word >= 0x8000_0000u32 ==> (word as i32) as int == word as int - 0x1_0000_0000)
        by (bit_vector);
}

/// Laid-out words take four bytes each, and each is read back from where it was laid out.
pub proof fn words_are_read_back(words: Seq<u32>, i: int)
    requires
        0 <= i < words.len(),
    ensures
        words_bytes(words).len() == 4 * words.len(),
        words_bytes(words)[4 * i] + 0x100 * (words_bytes(words)[4 * i + 1] + 0x100 * (words_bytes(
            words,
        )[4 * i + 2] + 0x100 * words_bytes(words)[4 * i + 3])) == words[i],
{
    lemma_word_round_trip(words[i]);
}

/// A 64-bit integer is the sum of its halves, the upper one weighted.
pub proof fn halves_make_the_whole(value: u64)
    ensures
        low_word(value) as int + 0x1_0000_0000 * (high_word(value) as int) == value,
{
}

/// The bytes of numbers hold the bits of each number, the lowest byte first.
pub proof fn numbers_are_laid_out(values: Seq<F32>, i: int)
    requires
        0 <= i < values.len(),
    ensures
        float_bytes(values).len() == 4 * values.len(),
        float_bytes(values)[4 * i] + 0x100 * (float_bytes(values)[4 * i + 1] + 0x100 * (float_bytes(
            values,
        )[4 * i + 2] + 0x100 * float_bytes(values)[4 * i + 3])) == values[i].bits,
{
    words_are_read_back(crate::words::float_words(values), i);
}

/// The numbers that bytes hold have the bits that the bytes spell, the lowest byte first.
pub proof fn bytes_spell_numbers(bytes: Seq<u8>, i: int)
    requires
        0 <= i < bytes.len() / 4,
    ensures
        bytes_floats(bytes).len() == bytes.len() / 4,
        bytes_floats(bytes)[i].bits == bytes[4 * i] + 0x100 * (bytes[4 * i + 1] + 0x100 * (bytes[4
            * i + 2] + 0x100 * bytes[4 * i + 3])),
{
}

/// Whether a number is one of the numbers of a run.
pub open spec fn is_among(value: F32, values: Seq<F32>) -> bool {
    exists|i: int| 0 <= i < values.len() && #[trigger] values[i] == value
}

/// The lowest and the highest of a run enclose every number of it, and each is a number of it
/// wherever there is one.
pub proof fn extremes_enclose_and_are_attained(values: Seq<F32>)
    ensures
        forall|i: int|
            0 <= i < values.len() && !(#[trigger] values[i]).nan() ==> lowest(values).at_most(
                values[i],
            ) && values[i].at_most(highest(values)),
        (exists|i: int| 0 <= i < values.len() && !(#[trigger] values[i]).nan()) ==> exists|i: int|
            0 <= i < values.len() && (#[trigger] values[i]).scaled() == lowest(values).scaled()
                && !values[i].nan(),
        (exists|i: int| 0 <= i < values.len() && !(#[trigger] values[i]).nan()) ==> exists|i: int|
            0 <= i < values.len() && (#[trigger] values[i]).scaled() == highest(values).scaled()
                && !values[i].nan(),
        lowest(values).bits == INFINITY_BITS || is_among(lowest(values), values),
        highest(values).bits == NEG_INFINITY_BITS || is_among(highest(values), values),
        (forall|i: int| 0 <= i < values.len() ==> (#[trigger] values[i]).nan()) ==> lowest(
            values,
        ).bits == 0x7f80_0000 && highest(values).bits == 0xff80_0000,
        !lowest(values).nan() && !highest(values).nan(),
    decreases values.len(),
{
    if values.len() > 0 {
        let rest = values.drop_last();
        extremes_enclose_and_are_attained(rest);
        let last = values.len() - 1;
        assert forall|i: int| 0 <= i < values.len() && !(#[trigger] values[i]).nan() implies lowest(
            values,
        ).at_most(values[i]) && values[i].at_most(highest(values)) by {
            if i < last {
                assert(rest[i] == values[i]);
            }
        }
        if is_among(lowest(rest), rest) {
            let k = choose|k: int| 0 <= k < rest.len() && #[trigger] rest[k] == lowest(rest);
            assert(values[k] == lowest(rest));
        }
        if is_among(highest(rest), rest) {
            let k = choose|k: int| 0 <= k < rest.len() && #[trigger] rest[k] == highest(rest);
            assert(values[k] == highest(rest));
        }
        assert(values[last] == values.last());
        assert(lowest(values).bits == INFINITY_BITS || is_among(lowest(values), values));
        assert(highest(values).bits == NEG_INFINITY_BITS || is_among(highest(values), values));
        assert((forall|i: int| 0 <= i < values.len() ==> (#[trigger] values[i]).nan()) ==> (forall|
            i: int,
        |
            0 <= i < rest.len() ==> (#[trigger] rest[i]).nan())) by {
            if forall|i: int| 0 <= i < values.len() ==> (#[trigger] values[i]).nan() {
                assert forall|i: int| 0 <= i < rest.len() implies (#[trigger] rest[i]).nan() by {
                    assert(values[i].nan());
                }
            }
        }
        if exists|i: int| 0 <= i < values.len() && !(#[trigger] values[i]).nan() {
            let k = choose|k: int| 0 <= k < values.len() && !(#[trigger] values[k]).nan();
            if lowest(values).bits == INFINITY_BITS {
                assert(values[k].bits == INFINITY_BITS);
            } else {
                let m = choose|m: int| 0 <= m < values.len() && #[trigger] values[m] == lowest(
                    values,
                );
                assert(values[m].scaled() == lowest(values).scaled());
            }
            if highest(values).bits == NEG_INFINITY_BITS {
                assert(values[k].bits == NEG_INFINITY_BITS);
            } else {
                let m = choose|m: int| 0 <= m < values.len() && #[trigger] values[m] == highest(
                    values,
                );
                assert(values[m].scaled() == highest(values).scaled());
            }
        }
    }
}

/// Field `field` of the splats `from..to`: the lowest and the highest enclose it in each of them.
pub proof fn columns_are_enclosed(values: Seq<F32>, stride: int, field: int, from: int, to: int)
    requires
        from <= to,
    ensures
        forall|p: int|
            from <= p < to && !(#[trigger] values[p * stride + field]).nan() ==> lowest(
                column(values, stride, field, from, to),
            ).at_most(values[p * stride + field]) && values[p * stride + field].at_most(
                highest(column(values, stride, field, from, to)),
            ),
        (exists|p: int| from <= p < to && !(#[trigger] values[p * stride + field]).nan()) ==> ({
            &&& exists|p: int|
                from <= p < to && #[trigger] values[p * stride + field] == lowest(
                    column(values, stride, field, from, to),
                )
            &&& exists|p: int|
                from <= p < to && #[trigger] values[p * stride + field] == highest(
                    column(values, stride, field, from, to),
                )
        }),
        (forall|p: int| from <= p < to ==> (#[trigger] values[p * stride + field]).nan()) ==> lowest(
            column(values, stride, field, from, to),
        ).bits == 0x7f80_0000 && highest(column(values, stride, field, from, to)).bits
            == 0xff80_0000,
{
    let run = column(values, stride, field, from, to);
    extremes_enclose_and_are_attained(run);
    assert forall|p: int| from <= p < to && !(#[trigger] values[p * stride + field]).nan() implies lowest(
        run,
    ).at_most(values[p * stride + field]) && values[p * stride + field].at_most(highest(run)) by {
        assert(run[p - from] == values[p * stride + field]);
    }
    if exists|p: int| from <= p < to && !(#[trigger] values[p * stride + field]).nan() {
        let p = choose|p: int| from <= p < to && !(#[trigger] values[p * stride + field]).nan();
        assert(run[p - from] == values[p * stride + field]);
        if lowest(run).bits == INFINITY_BITS {
            assert(values[p * stride + field] == lowest(run));
        } else {
            let k = choose|k: int| 0 <= k < run.len() && #[trigger] run[k] == lowest(run);
            assert(values[(from + k) * stride + field] == lowest(run));
        }
        if highest(run).bits == NEG_INFINITY_BITS {
            assert(values[p * stride + field] == highest(run));
        } else {
            let k = choose|k: int| 0 <= k < run.len() && #[trigger] run[k] == highest(run);
            assert(values[(from + k) * stride + field] == highest(run));
        }
    }
    if forall|p: int| from <= p < to ==> (#[trigger] values[p * stride + field]).nan() {
        assert forall|i: int| 0 <= i < run.len() implies (#[trigger] run[i]).nan() by {
            assert(values[(from + i) * stride + field].nan());
        }
    }
}

} // verus!
