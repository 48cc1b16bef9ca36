//! The ranges that a pack's records are quantized over.

use crate::chunking::{ChunkEntry, POINT_STRIDE_FLOATS};
use crate::extents::{column, column_extent, highest, lemma_field_within, lowest};
use crate::floats::{F32, INFINITY_BITS, MINUS_ONE_BITS, NEG_INFINITY_BITS, ONE_BITS, ZERO_BITS};
use crate::gsplat_pack::{sh_count, sh_floats, QuantizationRanges};
use vstd::prelude::*;

verus! {

/// The coefficients of the first `n` splats, `count` of each.
pub open spec fn coefficients(values: Seq<F32>, stride: int, count: int, n: nat) -> Seq<F32>
    decreases n,
{
    if n == 0 {
        Seq::empty()
    } else {
        coefficients(values, stride, count, (n - 1) as nat) + Seq::new(
            count as nat,
            |k: int| values[(n - 1) * stride + POINT_STRIDE_FLOATS + k],
        )
    }
}

/// Which ranges are too narrow to spread anything over: their ends differ by no more than the
/// spacing of the numbers around one.
#[derive(Clone, Copy, Debug, PartialEq, Eq)]
pub struct NarrowRanges {
    pub position: [bool; 3],
    pub scale: [bool; 3],
    pub sh: bool,
}

/// The range `low..high`, or `0..1` where it is narrow or there was nothing to range over.
pub open spec fn settled(low: F32, high: F32, narrow: bool) -> (F32, F32) {
    if !low.finite() || narrow {
        (F32 { bits: ZERO_BITS }, F32 { bits: ONE_BITS })
    } else {
        (low, high)
    }
}

/// The range of the coefficients, or `-1..1` where it is narrow or there are none.
pub open spec fn settled_sh(low: F32, high: F32, narrow: bool, count: int) -> (F32, F32) {
    if count == 0 || !low.finite() || narrow {
        (F32 { bits: MINUS_ONE_BITS }, F32 { bits: ONE_BITS })
    } else {
        (low, high)
    }
}

/// The range `low..high`, or `0..1` where it is narrow or there was nothing to range over.
fn settle(low: F32, high: F32, narrow: bool) -> (range: (F32, F32))
    ensures
        range == settled(low, high, narrow),
{
    if !low.is_finite() || narrow {
        (F32 { bits: ZERO_BITS }, F32 { bits: ONE_BITS })
    } else {
        (low, high)
    }
}

/// The lowest and the highest coefficient of all splats.
fn coefficient_extent(values: &[F32], stride: usize, count: usize, n: usize) -> (extent: (F32, F32))
    requires
        n * stride <= values@.len(),
        POINT_STRIDE_FLOATS + count <= stride,
    ensures
        extent.0 == lowest(coefficients(values@, stride as int, count as int, n as nat)),
        extent.1 == highest(coefficients(values@, stride as int, count as int, n as nat)),
{
    let mut low = F32 { bits: INFINITY_BITS };
    let mut high = F32 { bits: NEG_INFINITY_BITS };
    let mut i: usize = 0;
    assert(values.len() <= usize::MAX);
    while i < n
        invariant
            i <= n,
            n * stride <= values@.len() <= usize::MAX,
            POINT_STRIDE_FLOATS + count <= stride,
            low == lowest(coefficients(values@, stride as int, count as int, i as nat)),
            high == highest(coefficients(values@, stride as int, count as int, i as nat)),
        decreases n - i,
    {
        let ghost before = coefficients(values@, stride as int, count as int, i as nat);
        let ghost own = Seq::new(
            count as nat,
            |k: int| values@[i * stride + POINT_STRIDE_FLOATS + k],
        );
        let mut k: usize = 0;
        assert(before + own.take(0) =~= before);
        while k < count
            invariant
                i < n,
                k <= count,
                n * stride <= values@.len() <= usize::MAX,
                POINT_STRIDE_FLOATS + count <= stride,
                own == Seq::new(
                    count as nat,
                    |k: int| values@[i * stride + POINT_STRIDE_FLOATS + k],
                ),
                low == lowest(before + own.take(k as int)),
                high == highest(before + own.take(k as int)),
            decreases count - k,
        {
            proof {
                lemma_field_within(
                    i as int,
                    n as int,
                    stride as int,
                    POINT_STRIDE_FLOATS + k,
                    values@.len() as int,
                );
                let next = before + own.take(k + 1);
                assert(next.drop_last() =~= before + own.take(k as int));
                assert(next.last() == own[k as int]);
            }
            let value: F32 = values[i * stride + POINT_STRIDE_FLOATS + k];
            low = low.min(value);
            high = high.max(value);
            k = k + 1;
        }
        assert(before + own.take(count as int) =~= coefficients(
            values@,
            stride as int,
            count as int,
            (i + 1) as nat,
        ));
        i = i + 1;
    }
    (low, high)
}

/// The extents of position, scale and coefficients over the first `n` splats.
pub open spec fn raw_ranges(
    values: Seq<F32>,
    stride: int,
    count: int,
    n: nat,
) -> QuantizationRanges {
    QuantizationRanges {
        position_min: [
            lowest(column(values, stride, 0, 0, n as int)),
            lowest(column(values, stride, 1, 0, n as int)),
            lowest(column(values, stride, 2, 0, n as int)),
        ],
        position_max: [
            highest(column(values, stride, 0, 0, n as int)),
            highest(column(values, stride, 1, 0, n as int)),
            highest(column(values, stride, 2, 0, n as int)),
        ],
        scale_min: [
            lowest(column(values, stride, 7, 0, n as int)),
            lowest(column(values, stride, 8, 0, n as int)),
            lowest(column(values, stride, 9, 0, n as int)),
        ],
        scale_max: [
            highest(column(values, stride, 7, 0, n as int)),
            highest(column(values, stride, 8, 0, n as int)),
            highest(column(values, stride, 9, 0, n as int)),
        ],
        sh_min: lowest(coefficients(values, stride, count, n)),
        sh_max: highest(coefficients(values, stride, count, n)),
    }
}

/// The ranges with the narrow ones replaced.
pub open spec fn settled_ranges(
    raw: QuantizationRanges,
    narrow: NarrowRanges,
    count: int,
) -> QuantizationRanges {
    QuantizationRanges {
        position_min: [
            settled(raw.position_min[0], raw.position_max[0], narrow.position[0]).0,
            settled(raw.position_min[1], raw.position_max[1], narrow.position[1]).0,
            settled(raw.position_min[2], raw.position_max[2], narrow.position[2]).0,
        ],
        position_max: [
            settled(raw.position_min[0], raw.position_max[0], narrow.position[0]).1,
            settled(raw.position_min[1], raw.position_max[1], narrow.position[1]).1,
            settled(raw.position_min[2], raw.position_max[2], narrow.position[2]).1,
        ],
        scale_min: [
            settled(raw.scale_min[0], raw.scale_max[0], narrow.scale[0]).0,
            settled(raw.scale_min[1], raw.scale_max[1], narrow.scale[1]).0,
            settled(raw.scale_min[2], raw.scale_max[2], narrow.scale[2]).0,
        ],
        scale_max: [
            settled(raw.scale_min[0], raw.scale_max[0], narrow.scale[0]).1,
            settled(raw.scale_min[1], raw.scale_max[1], narrow.scale[1]).1,
            settled(raw.scale_min[2], raw.scale_max[2], narrow.scale[2]).1,
        ],
        sh_min: settled_sh(raw.sh_min, raw.sh_max, narrow.sh, count).0,
        sh_max: settled_sh(raw.sh_min, raw.sh_max, narrow.sh, count).1,
    }
}

impl QuantizationRanges {
    /// The extents of position, scale and coefficients over all whole splats of a payload.
    pub fn from_payload(payload: &[F32], stride: usize, sh_degree_available: i32) -> (ranges: Self)
        requires
            stride >= POINT_STRIDE_FLOATS + sh_count(sh_degree_available as int),
        ensures
            ranges == raw_ranges(
                payload@,
                stride as int,
                sh_count(sh_degree_available as int),
                payload@.len() / stride as nat,
            ),
    {
        let count: usize = sh_floats(sh_degree_available);
        let n: usize = payload.len() / stride;
        assert(n * stride <= payload@.len()) by (nonlinear_arith)
            requires
                n == payload@.len() / stride as nat,
                stride > 0,
        ;
        proof {
            if n > 0 {
                lemma_field_within(n - 1, n as int, stride as int, 9, payload@.len() as int);
            }
        }
        let (x0, x1): (F32, F32) = column_extent(payload, stride, 0, 0, n);
        let (y0, y1): (F32, F32) = column_extent(payload, stride, 1, 0, n);
        let (z0, z1): (F32, F32) = column_extent(payload, stride, 2, 0, n);
        let (a0, a1): (F32, F32) = column_extent(payload, stride, 7, 0, n);
        let (b0, b1): (F32, F32) = column_extent(payload, stride, 8, 0, n);
        let (c0, c1): (F32, F32) = column_extent(payload, stride, 9, 0, n);
        let (sh_min, sh_max): (F32, F32) = coefficient_extent(payload, stride, count, n);
        let ranges = QuantizationRanges {
            position_min: [x0, y0, z0],
            position_max: [x1, y1, z1],
            scale_min: [a0, b0, c0],
            scale_max: [a1, b1, c1],
            sh_min,
            sh_max,
        };
        proof {
            let want = raw_ranges(
                payload@,
                stride as int,
                sh_count(sh_degree_available as int),
                n as nat,
            );
            assert(ranges.position_min =~= want.position_min);
            assert(ranges.position_max =~= want.position_max);
            assert(ranges.scale_min =~= want.scale_min);
            assert(ranges.scale_max =~= want.scale_max);
        }
        ranges
    }

    /// The ranges to quantize over: those that are narrow, or that nothing ranged over, replaced.
    pub fn settle(&self, narrow: &NarrowRanges, sh_degree_available: i32) -> (ranges: Self)
        ensures
            ranges == settled_ranges(*self, *narrow, sh_count(sh_degree_available as int)),
    {
        let x: (F32, F32) = settle(
            self.position_min[0],
            self.position_max[0],
            narrow.position[0],
        );
        let y: (F32, F32) = settle(
            self.position_min[1],
            self.position_max[1],
            narrow.position[1],
        );
        let z: (F32, F32) = settle(
            self.position_min[2],
            self.position_max[2],
            narrow.position[2],
        );
        let a: (F32, F32) = settle(self.scale_min[0], self.scale_max[0], narrow.scale[0]);
        let b: (F32, F32) = settle(self.scale_min[1], self.scale_max[1], narrow.scale[1]);
        let c: (F32, F32) = settle(self.scale_min[2], self.scale_max[2], narrow.scale[2]);
        let (sh_min, sh_max): (F32, F32) = if sh_floats(sh_degree_available) == 0
            || !self.sh_min.is_finite() || narrow.sh {
            (F32 { bits: MINUS_ONE_BITS }, F32 { bits: ONE_BITS })
        } else {
            (self.sh_min, self.sh_max)
        };
        let ranges = QuantizationRanges {
            position_min: [x.0, y.0, z.0],
            position_max: [x.1, y.1, z.1],
            scale_min: [a.0, b.0, c.0],
            scale_max: [a.1, b.1, c.1],
            sh_min,
            sh_max,
        };
        proof {
            let want = settled_ranges(*self, *narrow, sh_count(sh_degree_available as int));
            assert(ranges.position_min =~= want.position_min);
            assert(ranges.position_max =~= want.position_max);
            assert(ranges.scale_min =~= want.scale_min);
            assert(ranges.scale_max =~= want.scale_max);
        }
        ranges
    }
}

/// How many of the splats of a chunk lie, with their position, within a payload of `len` numbers.
pub open spec fn present_splats(entry: ChunkEntry, stride: int, len: int) -> int {
    let whole = if len < 3 {
        0
    } else {
        (len - 3) / stride + 1
    };
    if whole <= entry.offset {
        0
    } else if whole < entry.offset + entry.count {
        whole - entry.offset
    } else {
        entry.count as int
    }
}

/// The bounds of the centers of a chunk's splats, or the chunk's own bounds if it has none.
pub open spec fn center_bounds(values: Seq<F32>, stride: int, entry: ChunkEntry) -> (
    [F32; 3],
    [F32; 3],
) {
    let from = entry.offset as int;
    let to = entry.offset + present_splats(entry, stride, values.len() as int);
    if lowest(column(values, stride, 0, from, to)).finite() {
        (
            [
                lowest(column(values, stride, 0, from, to)),
                lowest(column(values, stride, 1, from, to)),
                lowest(column(values, stride, 2, from, to)),
            ],
            [
                highest(column(values, stride, 0, from, to)),
                highest(column(values, stride, 1, from, to)),
                highest(column(values, stride, 2, from, to)),
            ],
        )
    } else {
        (entry.aabb_min, entry.aabb_max)
    }
}

/// The bounds of the centers of a chunk's splats.
pub fn chunk_center_bounds(payload: &[F32], stride: usize, entry: &ChunkEntry) -> (bounds: (
    [F32; 3],
    [F32; 3],
))
    requires
        stride >= POINT_STRIDE_FLOATS,
        entry.count > 0 ==> entry.offset + entry.count - 1 <= u32::MAX,
    ensures
        bounds == center_bounds(payload@, stride as int, *entry),
{
    let len: usize = payload.len();
    let from: usize = entry.offset as usize;
    let end: u64 = entry.offset as u64 + entry.count as u64;
    let whole: usize = if len < 3 {
        0
    } else {
        (len - 3) / stride + 1
    };
    let to: usize = if whole <= from {
        from
    } else if (whole as u64) < end {
        whole
    } else {
        end as usize
    };
    proof {
        if from < to {
            assert((to - 1) * stride <= len - 3) by (nonlinear_arith)
                requires
                    0 <= to - 1 <= (len - 3) / stride as int,
                    len >= 3,
                    stride > 0,
            ;
        }
    }
    let (x0, x1): (F32, F32) = column_extent(payload, stride, 0, from, to);
    let (y0, y1): (F32, F32) = column_extent(payload, stride, 1, from, to);
    let (z0, z1): (F32, F32) = column_extent(payload, stride, 2, from, to);
    if !x0.is_finite() {
        return (entry.aabb_min, entry.aabb_max);
    }
    let low: [F32; 3] = [x0, y0, z0];
    let high: [F32; 3] = [x1, y1, z1];
    proof {
        let want = center_bounds(payload@, stride as int, *entry);
        assert(low =~= want.0);
        assert(high =~= want.1);
    }
    (low, high)
}

} // verus!
