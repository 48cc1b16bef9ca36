//! The extents of splat data: the lowest and the highest number of a column, and boxes.

use crate::floats::{F32, INFINITY_BITS, NEG_INFINITY_BITS, ZERO_BITS};
use vstd::prelude::*;

verus! {

/// The lowest of the numbers, counting what is no number for nothing; infinity if there is none.
pub open spec fn lowest(values: Seq<F32>) -> F32
    decreases values.len(),
{
    if values.len() == 0 {
        F32 { bits: INFINITY_BITS }
    } else {
        lowest(values.drop_last()).smaller(values.last())
    }
}

/// The highest of the numbers, counting what is no number for nothing; negative infinity if there
/// is none.
pub open spec fn highest(values: Seq<F32>) -> F32
    decreases values.len(),
{
    if values.len() == 0 {
        F32 { bits: NEG_INFINITY_BITS }
    } else {
        highest(values.drop_last()).larger(values.last())
    }
}

/// Field `field` of the splats `from..to`, `stride` numbers apart.
pub open spec fn column(values: Seq<F32>, stride: int, field: int, from: int, to: int) -> Seq<F32> {
    Seq::new((to - from) as nat, |i: int| values[(from + i) * stride + field])
}

/// The lowest number is no larger than any of the numbers, and is one of them or infinity.
pub proof fn lowest_bounds(values: Seq<F32>, i: int)
    requires
        0 <= i < values.len(),
        !values[i].nan(),
    ensures
        lowest(values).at_most(values[i]),
    decreases values.len(),
{
    lemma_lowest_is_number(values.drop_last());
    if i < values.len() - 1 {
        lowest_bounds(values.drop_last(), i);
    }
}

/// The highest number is no smaller than any of the numbers.
pub proof fn highest_bounds(values: Seq<F32>, i: int)
    requires
        0 <= i < values.len(),
        !values[i].nan(),
    ensures
        values[i].at_most(highest(values)),
    decreases values.len(),
{
    lemma_highest_is_number(values.drop_last());
    if i < values.len() - 1 {
        highest_bounds(values.drop_last(), i);
    }
}

proof fn lemma_lowest_is_number(values: Seq<F32>)
    ensures
        !lowest(values).nan(),
    decreases values.len(),
{
    if values.len() > 0 {
        lemma_lowest_is_number(values.drop_last());
    }
}

proof fn lemma_highest_is_number(values: Seq<F32>)
    ensures
        !highest(values).nan(),
    decreases values.len(),
{
    if values.len() > 0 {
        lemma_highest_is_number(values.drop_last());
    }
}

/// One more splat makes the column one longer.
pub proof fn lemma_column_step(values: Seq<F32>, stride: int, field: int, from: int, to: int)
    requires
        from <= to,
    ensures
        column(values, stride, field, from, to + 1) == column(values, stride, field, from, to).push(
            values[to * stride + field],
        ),
        column(values, stride, field, from, to + 1).drop_last() == column(
            values,
            stride,
            field,
            from,
            to,
        ),
        column(values, stride, field, from, to + 1).last() == values[to * stride + field],
{
    assert(column(values, stride, field, from, to + 1) =~= column(
        values,
        stride,
        field,
        from,
        to,
    ).push(values[to * stride + field]));
    assert(column(values, stride, field, from, to + 1).drop_last() =~= column(
        values,
        stride,
        field,
        from,
        to,
    ));
}

/// A field of a splat lies within the payload.
pub proof fn lemma_field_within(i: int, n: int, stride: int, field: int, len: int)
    requires
        0 <= i < n,
        n * stride <= len,
        0 <= field < stride,
    ensures
        0 <= i * stride,
        i * stride + field < len,
        (i + 1) * stride <= len,
{
    assert(0 <= i * stride && (i + 1) * stride <= n * stride && (i + 1) * stride == i * stride
        + stride) by (nonlinear_arith)
        requires
            0 <= i < n,
            0 < stride,
    ;
}

/// The lowest and the highest number of one field of the splats `from..to`.
pub fn column_extent(values: &[F32], stride: usize, field: usize, from: usize, to: usize) -> (extent:
    (F32, F32))
    requires
        from <= to,
        from < to ==> (to - 1) * stride + field < values@.len(),
    ensures
        extent.0 == lowest(column(values@, stride as int, field as int, from as int, to as int)),
        extent.1 == highest(column(values@, stride as int, field as int, from as int, to as int)),
{
    let mut low = F32 { bits: INFINITY_BITS };
    let mut high = F32 { bits: NEG_INFINITY_BITS };
    let mut i: usize = from;
    assert(values.len() <= usize::MAX);
    while i < to
        invariant
            from <= i <= to,
            from < to ==> (to - 1) * stride + field < values@.len() <= usize::MAX,
            low == lowest(column(values@, stride as int, field as int, from as int, i as int)),
            high == highest(column(values@, stride as int, field as int, from as int, i as int)),
        decreases to - i,
    {
        proof {
            assert(0 <= i * stride <= (to - 1) * stride) by (nonlinear_arith)
                requires
                    0 <= i <= to - 1,
                    0 <= stride,
            ;
            lemma_column_step(values@, stride as int, field as int, from as int, i as int);
        }
        let value: F32 = values[i * stride + field];
        low = low.min(value);
        high = high.max(value);
        i = i + 1;
    }
    (low, high)
}

/// A box: where it starts, and how far it reaches.
#[derive(Clone, Copy, Debug, PartialEq, Eq)]
pub struct LocalBox {
    pub position: [F32; 3],
    pub size: [F32; 3],
}

/// Whether a box starts at the origin and reaches nowhere.
pub open spec fn is_empty_box(b: LocalBox) -> bool {
    let zero = F32 { bits: ZERO_BITS };
    b.position@ == seq![zero, zero, zero] && b.size@ == seq![zero, zero, zero]
}

impl Default for LocalBox {
    fn default() -> (b: LocalBox)
        ensures
            is_empty_box(b),
    {
        let zero = F32 { bits: ZERO_BITS };
        let b = LocalBox { position: [zero, zero, zero], size: [zero, zero, zero] };
        assert(b.position@ =~= seq![zero, zero, zero]);
        assert(b.size@ =~= seq![zero, zero, zero]);
        b
    }
}

} // verus!
