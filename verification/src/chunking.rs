//! Spatial grid partitioning of a splat payload for chunked streaming.
//!
//! A payload is a flat run of numbers, a fixed number of them per splat. Partitioning reorders it
//! so that the splats of every grid cell stand together, the most important first, and describes
//! each cell's range and bounds in a table.

use crate::extents::{
    column, column_extent, highest, highest_bounds, lemma_field_within, lowest, lowest_bounds,
};
use crate::floats::{F32, INFINITY_BITS, NEG_INFINITY_BITS, ZERO_BITS};
use crate::gsplat_pack::layout::{effective_stride, least};
use crate::gsplat_pack::selection::selected_total;
use crate::sorting::{
    among_first, is_order, lemma_before_is_prefix, lemma_order_position, lemma_position_in_order,
    lemma_prefix_is_filtered_sum, lemma_sum_agree, lemma_weight_before_within, position,
    positions_are_a_permutation, precedes, prefix_weight, stable_order, sum_of, weight_before,
    SortKey,
};
use vstd::prelude::*;
use vstd::slice::slice_subrange;

verus! {

/// Numbers per splat in the core layout.
pub const POINT_STRIDE_FLOATS: usize = 18;

/// The bits of 2.0: the edge of a grid cell unless the caller says otherwise.
pub const DEFAULT_CHUNK_SIZE_BITS: u32 = 0x4000_0000;

/// The bits of 0.0001: the smallest edge of a grid cell.
pub const MIN_CHUNK_SIZE_BITS: u32 = 0x38d1_b717;

/// One grid cell of contiguously stored splats in the reordered payload.
#[derive(Clone, Copy, Debug, PartialEq, Eq)]
pub struct ChunkEntry {
    pub grid: [i32; 3],
    pub aabb_min: [F32; 3],
    pub aabb_max: [F32; 3],
    /// First splat of this chunk within the reordered payload.
    pub offset: u32,
    pub count: u32,
}

/// How a reordered payload is partitioned into grid chunks.
#[derive(Clone, Debug, PartialEq, Eq)]
pub struct ChunkTable {
    pub chunk_size: F32,
    pub grid_origin: [F32; 3],
    pub entries: Vec<ChunkEntry>,
    /// Numbers per splat in the payload that this table describes.
    pub stride: usize,
}

/// A reordered payload, the table that describes its chunks, and the largest radius in each chunk.
/// The bounds in the table are those of the splat centers.
#[derive(Clone, Debug, PartialEq, Eq)]
pub struct PartitionedPayload {
    pub payload: Vec<F32>,
    pub table: ChunkTable,
    pub max_radii: Vec<F32>,
}

/// A cell as one integer; the integers are ordered as the cells are, coordinate by coordinate.
pub open spec fn cell_code(cell: [i32; 3]) -> int {
    (cell[0] * 0x1_0000_0000 + cell[1]) * 0x1_0000_0000 + cell[2]
}

/// Whether one cell comes before another: by the first coordinate in which they differ.
pub open spec fn cell_before(a: [i32; 3], b: [i32; 3]) -> bool {
    a[0] < b[0] || (a[0] == b[0] && (a[1] < b[1] || (a[1] == b[1] && a[2] < b[2])))
}

/// Different cells have different codes, and the codes are ordered as the cells are.
pub proof fn lemma_cell_code(a: [i32; 3], b: [i32; 3])
    ensures
        cell_code(a) == cell_code(b) <==> a == b,
        cell_code(a) < cell_code(b) <==> cell_before(a, b),
{
    if cell_code(a) == cell_code(b) {
        assert(a =~= b);
    }
}

/// The integer that stands for a cell.
pub fn encode_cell(cell: [i32; 3]) -> (code: i128)
    ensures
        code == cell_code(cell),
{
    (cell[0] as i128 * 0x1_0000_0000 + cell[1] as i128) * 0x1_0000_0000 + cell[2] as i128
}

/// What splats are sorted by: their cell, then the highest importance first.
pub open spec fn splat_keys(cells: Seq<[i32; 3]>, importance: Seq<F32>) -> Seq<SortKey> {
    Seq::new(
        cells.len(),
        |i: int|
            SortKey {
                major: cell_code(cells[i]) as i128,
                minor: importance[i].descending_rank() as i64,
            },
    )
}

/// Whether two splats' cells are the same.
pub open spec fn same_cell(a: [i32; 3], b: [i32; 3]) -> bool {
    a == b
}

/// The number of splats in cells before the given one.
pub open spec fn splats_before_cell(cells: Seq<[i32; 3]>, cell: [i32; 3]) -> int {
    sum_of(
        |j: int|
            if cell_before(cells[j], cell) {
                1
            } else {
                0
            },
        cells.len(),
    )
}

/// The number of splats in the given cell.
pub open spec fn splats_in_cell(cells: Seq<[i32; 3]>, cell: [i32; 3]) -> int {
    sum_of(
        |j: int|
            if same_cell(cells[j], cell) {
                1
            } else {
                0
            },
        cells.len(),
    )
}

/// The radius of a splat: the largest of its three scales without their signs.
pub open spec fn splat_radius(values: Seq<F32>, start: int) -> F32 {
    values[start + 7].unsigned().larger(values[start + 8].unsigned()).larger(
        values[start + 9].unsigned(),
    )
}

/// The largest radius among the splats `from..to`.
pub open spec fn largest_radius(values: Seq<F32>, stride: int, from: int, to: int) -> F32
    decreases to - from,
{
    if to <= from {
        F32 { bits: ZERO_BITS }
    } else {
        largest_radius(values, stride, from, to - 1).larger(
            splat_radius(values, (to - 1) * stride),
        )
    }
}

/// The corner of the grid: the lowest coordinates of all splats, or zero if there are none.
pub open spec fn origin_of(values: Seq<F32>, stride: int, n: int) -> [F32; 3] {
    if n == 0 {
        [F32 { bits: ZERO_BITS }, F32 { bits: ZERO_BITS }, F32 { bits: ZERO_BITS }]
    } else {
        [
            lowest(column(values, stride, 0, 0, n)),
            lowest(column(values, stride, 1, 0, n)),
            lowest(column(values, stride, 2, 0, n)),
        ]
    }
}

/// The edge of a grid cell: what is asked for, but not below the smallest.
pub open spec fn edge_of(chunk_size: F32) -> F32 {
    chunk_size.larger(F32 { bits: MIN_CHUNK_SIZE_BITS })
}

/// The edge of a grid cell.
pub fn effective_chunk_size(chunk_size: F32) -> (edge: F32)
    ensures
        edge == edge_of(chunk_size),
{
    chunk_size.max(F32 { bits: MIN_CHUNK_SIZE_BITS })
}

/// The numbers per splat: at least the core layout.
pub fn effective_splat_stride(stride: usize) -> (width: usize)
    ensures
        width == effective_stride(stride),
{
    if stride < POINT_STRIDE_FLOATS {
        POINT_STRIDE_FLOATS
    } else {
        stride
    }
}

/// Whole splats lie within the payload.
proof fn lemma_whole_splats(len: int, stride: int)
    requires
        len >= 0,
        stride > 0,
    ensures
        0 <= len / stride,
        (len / stride) * stride <= len,
{
    assert(0 <= len / stride && (len / stride) * stride <= len) by (nonlinear_arith)
        requires
            len >= 0,
            stride > 0,
    ;
}

/// The corner of the grid over a payload.
pub fn grid_origin(payload: &[F32], stride: usize) -> (origin: [F32; 3])
    ensures
        origin == origin_of(
            payload@,
            effective_stride(stride),
            payload@.len() as int / effective_stride(stride),
        ),
{
    let width: usize = effective_splat_stride(stride);
    let n: usize = payload.len() / width;
    let zero = F32 { bits: ZERO_BITS };
    if n == 0 {
        let origin: [F32; 3] = [zero, zero, zero];
        assert(origin =~= origin_of(payload@, width as int, n as int));
        return origin;
    }
    proof {
        lemma_whole_splats(payload@.len() as int, width as int);
        lemma_field_within(n - 1, n as int, width as int, 2, payload@.len() as int);
    }
    let (x, _): (F32, F32) = column_extent(payload, width, 0, 0, n);
    let (y, _): (F32, F32) = column_extent(payload, width, 1, 0, n);
    let (z, _): (F32, F32) = column_extent(payload, width, 2, 0, n);
    let origin: [F32; 3] = [x, y, z];
    assert(origin =~= origin_of(payload@, width as int, n as int));
    origin
}

/// Field `field` of splat `i`.
pub open spec fn field_of(values: Seq<F32>, stride: int, i: int, field: int) -> F32 {
    values[i * stride + field]
}

/// Whether `out` holds the splats of `values` in the given order.
pub open spec fn holds_in_order(
    out: Seq<F32>,
    values: Seq<F32>,
    stride: int,
    order: Seq<usize>,
) -> bool {
    &&& out.len() == order.len() * stride
    &&& forall|p: int, f: int|
        0 <= p < order.len() && 0 <= f < stride ==> #[trigger] field_of(out, stride, p, f)
            == field_of(values, stride, order[p] as int, f)
}

/// Copies the splats in the given order.
fn copy_in_order(payload: &[F32], stride: usize, order: &Vec<usize>) -> (out: Vec<F32>)
    requires
        stride > 0,
        order@.len() * stride <= payload@.len(),
        forall|p: int| 0 <= p < order@.len() ==> #[trigger] order@[p] < order@.len(),
    ensures
        holds_in_order(out@, payload@, stride as int, order@),
{
    let mut out: Vec<F32> = Vec::with_capacity(payload.len());
    let mut p: usize = 0;
    let ghost n = order@.len() as int;
    let ghost width = stride as int;
    assert(payload.len() <= usize::MAX);
    assert(0 * width == 0);
    while p < order.len()
        invariant
            p <= order@.len() == n,
            width == stride > 0,
            n * width <= payload@.len() <= usize::MAX,
            forall|q: int| 0 <= q < n ==> #[trigger] order@[q] < n,
            out@.len() == p * width,
            forall|q: int, f: int|
                0 <= q < p && 0 <= f < width ==> #[trigger] field_of(out@, width, q, f)
                    == field_of(payload@, width, order@[q] as int, f),
        decreases n - p,
    {
        let index: usize = order[p];
        assert(order@[p as int] < n);
        proof {
            lemma_field_within(index as int, n, width, 0, payload@.len() as int);
            assert((index + 1) * width == index * width + width) by (nonlinear_arith);
            assert((p + 1) * width == p * width + width) by (nonlinear_arith);
        }
        let start: usize = index * stride;
        let ghost before = out@;
        let part = slice_subrange(payload, start, start + stride);
        out.extend_from_slice(part);
        proof {
            assert(out@ =~= before + part@);
            assert forall|q: int, f: int| 0 <= q < p + 1 && 0 <= f < width implies #[trigger] field_of(
                out@,
                width,
                q,
                f,
            ) == field_of(payload@, width, order@[q] as int, f) by {
                if q < p {
                    lemma_field_within(q, p as int, width, f, before.len() as int);
                    assert(field_of(before, width, q, f) == field_of(
                        payload@,
                        width,
                        order@[q] as int,
                        f,
                    ));
                } else {
                    assert(out@[p * width + f] == part@[f]);
                }
            }
        }
        p = p + 1;
    }
    out
}

/// The largest radius among the splats `from..to`.
fn max_radius(values: &[F32], stride: usize, from: usize, to: usize) -> (radius: F32)
    requires
        stride >= POINT_STRIDE_FLOATS,
        from <= to,
        to * stride <= values@.len(),
    ensures
        radius == largest_radius(values@, stride as int, from as int, to as int),
{
    let mut radius = F32 { bits: ZERO_BITS };
    let mut i: usize = from;
    assert(values.len() <= usize::MAX);
    while i < to
        invariant
            stride >= POINT_STRIDE_FLOATS,
            from <= i <= to,
            to * stride <= values@.len() <= usize::MAX,
            radius == largest_radius(values@, stride as int, from as int, i as int),
        decreases to - i,
    {
        proof {
            lemma_field_within(i as int, to as int, stride as int, 9, values@.len() as int);
        }
        let start: usize = i * stride;
        let own: F32 = values[start + 7].abs().max(values[start + 8].abs()).max(
            values[start + 9].abs(),
        );
        radius = radius.max(own);
        i = i + 1;
    }
    radius
}

/// A run of equal cells in an order holds all splats of the cell, and what stands before it are
/// the splats of the cells before it.
proof fn lemma_run_counts(
    cells: Seq<[i32; 3]>,
    importance: Seq<F32>,
    order: Seq<usize>,
    start: int,
    end: int,
)
    requires
        is_order(splat_keys(cells, importance), order),
        0 <= start < end <= order.len(),
        forall|p: int|
            start <= p < end ==> cells[#[trigger] order[p] as int] == cells[order[start] as int],
        start > 0 ==> cells[order[start - 1] as int] != cells[order[start] as int],
        end < order.len() ==> cells[order[end] as int] != cells[order[start] as int],
    ensures
        splats_before_cell(cells, cells[order[start] as int]) == start,
        splats_in_cell(cells, cells[order[start] as int]) == end - start,
{
    let keys = splat_keys(cells, importance);
    let n = cells.len();
    let cell = cells[order[start] as int];
    let ones = |j: int| 1int;
    let low = |j: int|
        if among_first(order, start, j) {
            ones(j)
        } else {
            0
        };
    let high = |j: int|
        if among_first(order, end, j) {
            ones(j)
        } else {
            0
        };
    let before = |j: int|
        if cell_before(cells[j], cell) {
            1int
        } else {
            0
        };
    let own = |j: int|
        if same_cell(cells[j], cell) {
            1int
        } else {
            0
        };
    assert forall|j: int| 0 <= j < n implies #[trigger] low(j) == before(j) && high(j) == low(j)
        + own(j) by {
        assert(order.contains(j as usize));
        let q = choose|q: int| 0 <= q < order.len() && order[q] == j as usize;
        assert(order[q] == j);
        lemma_order_position(keys, order, q);
        assert(among_first(order, start, j) <==> q < start) by {
            if among_first(order, start, j) {
                let r = choose|r: int| 0 <= r < start && #[trigger] order[r] == j;
                lemma_order_position(keys, order, r);
            }
        }
        assert(among_first(order, end, j) <==> q < end) by {
            if among_first(order, end, j) {
                let r = choose|r: int| 0 <= r < end && #[trigger] order[r] == j;
                lemma_order_position(keys, order, r);
            }
        }
        lemma_cell_code(cells[j], cell);
        if q < start {
            lemma_cell_code(cells[order[start - 1] as int], cell);
            assert(precedes(keys, order[start - 1] as int, order[start] as int));
            if q < start - 1 {
                assert(precedes(keys, order[q] as int, order[start - 1] as int));
            }
        } else if q >= end {
            lemma_cell_code(cells[order[end] as int], cell);
            assert(precedes(keys, order[start] as int, order[end] as int));
            if q > end {
                assert(precedes(keys, order[end] as int, order[q] as int));
            }
        } else {
            assert(cells[order[q] as int] == cell);
        }
    }
    lemma_sum_agree(low, before, n);
    crate::sorting::lemma_sum_add(low, own, high, n);
    lemma_prefix_is_filtered_sum(keys, order, ones, start as nat);
    lemma_prefix_is_filtered_sum(keys, order, ones, end as nat);
    crate::sorting::lemma_prefix_ones(order, start as nat);
    crate::sorting::lemma_prefix_ones(order, end as nat);
}

/// The lowest coordinates of the splats `from..to`.
pub open spec fn low_corner(values: Seq<F32>, stride: int, from: int, to: int) -> [F32; 3] {
    [
        lowest(column(values, stride, 0, from, to)),
        lowest(column(values, stride, 1, from, to)),
        lowest(column(values, stride, 2, from, to)),
    ]
}

/// The highest coordinates of the splats `from..to`.
pub open spec fn high_corner(values: Seq<F32>, stride: int, from: int, to: int) -> [F32; 3] {
    [
        highest(column(values, stride, 0, from, to)),
        highest(column(values, stride, 1, from, to)),
        highest(column(values, stride, 2, from, to)),
    ]
}

/// Whether an entry says of its cell how many splats it has, where they stand in the reordered
/// payload, and what the bounds of their centers are.
pub open spec fn describes_cell(
    entry: ChunkEntry,
    cells: Seq<[i32; 3]>,
    payload: Seq<F32>,
    stride: int,
) -> bool {
    &&& entry.count >= 1
    &&& entry.count == splats_in_cell(cells, entry.grid)
    &&& entry.offset == splats_before_cell(cells, entry.grid)
    &&& entry.aabb_min == low_corner(
        payload,
        stride,
        entry.offset as int,
        entry.offset + entry.count,
    )
    &&& entry.aabb_max == high_corner(
        payload,
        stride,
        entry.offset as int,
        entry.offset + entry.count,
    )
}

/// Whether the chunks stand one after the other from the first splat on, `total` splats in all.
pub open spec fn contiguous(entries: Seq<ChunkEntry>, total: int) -> bool {
    &&& forall|e: int|
        0 <= e < entries.len() ==> (#[trigger] entries[e]).offset == chunk_start(entries, e)
    &&& chunk_start(entries, entries.len() as int) == total
}

/// Where chunk `e` starts: where the chunk before it ends.
pub open spec fn chunk_start(entries: Seq<ChunkEntry>, e: int) -> int {
    if e <= 0 {
        0
    } else {
        entries[e - 1].offset + entries[e - 1].count
    }
}

/// Whether some chunk is that of the cell.
pub open spec fn has_cell(entries: Seq<ChunkEntry>, cell: [i32; 3]) -> bool {
    exists|e: int| 0 <= e < entries.len() && (#[trigger] entries[e]).grid == cell
}

/// Whether the chunks are those of all cells that hold splats, in the order of the cells.
pub open spec fn lists_cells(entries: Seq<ChunkEntry>, cells: Seq<[i32; 3]>) -> bool {
    &&& forall|a: int, b: int|
        0 <= a < b < entries.len() ==> cell_before(
            (#[trigger] entries[a]).grid,
            (#[trigger] entries[b]).grid,
        )
    &&& forall|i: int| 0 <= i < cells.len() ==> has_cell(entries, #[trigger] cells[i])
}

/// Makes the entry of the cell whose splats stand at `start..end` of the reordered payload.
fn make_entry(payload: &[F32], stride: usize, grid: [i32; 3], start: usize, end: usize) -> (entry:
    ChunkEntry)
    requires
        stride >= POINT_STRIDE_FLOATS,
        start < end <= u32::MAX,
        end * stride <= payload@.len(),
    ensures
        entry.grid == grid,
        entry.offset == start,
        entry.count == end - start,
        entry.aabb_min == low_corner(payload@, stride as int, start as int, end as int),
        entry.aabb_max == high_corner(payload@, stride as int, start as int, end as int),
{
    proof {
        lemma_field_within(end - 1, end as int, stride as int, 2, payload@.len() as int);
    }
    let (x0, x1): (F32, F32) = column_extent(payload, stride, 0, start, end);
    let (y0, y1): (F32, F32) = column_extent(payload, stride, 1, start, end);
    let (z0, z1): (F32, F32) = column_extent(payload, stride, 2, start, end);
    let aabb_min: [F32; 3] = [x0, y0, z0];
    let aabb_max: [F32; 3] = [x1, y1, z1];
    assert(aabb_min =~= low_corner(payload@, stride as int, start as int, end as int));
    assert(aabb_max =~= high_corner(payload@, stride as int, start as int, end as int));
    ChunkEntry { grid, aabb_min, aabb_max, offset: start as u32, count: (end - start) as u32 }
}

/// The table and the radii of a payload whose splats stand in the given order.
fn table_entries(
    payload: &[F32],
    stride: usize,
    cells: &Vec<[i32; 3]>,
    order: &Vec<usize>,
    Ghost(importance): Ghost<Seq<F32>>,
) -> (parts: (Vec<ChunkEntry>, Vec<F32>))
    requires
        stride >= POINT_STRIDE_FLOATS,
        cells@.len() <= u32::MAX,
        is_order(splat_keys(cells@, importance), order@),
        cells@.len() * stride <= payload@.len(),
    ensures
        forall|e: int|
            0 <= e < parts.0@.len() ==> describes_cell(
                #[trigger] parts.0@[e],
                cells@,
                payload@,
                stride as int,
            ),
        contiguous(parts.0@, cells@.len() as int),
        lists_cells(parts.0@, cells@),
        parts.1@.len() == parts.0@.len(),
        forall|e: int|
            0 <= e < parts.1@.len() ==> #[trigger] parts.1@[e] == largest_radius(
                payload@,
                stride as int,
                parts.0@[e].offset as int,
                parts.0@[e].offset + parts.0@[e].count,
            ),
{
    let ghost keys = splat_keys(cells@, importance);
    let n: usize = order.len();
    let mut entries: Vec<ChunkEntry> = Vec::new();
    let mut radii: Vec<F32> = Vec::new();
    let mut start: usize = 0;
    while start < n
        invariant
            stride >= POINT_STRIDE_FLOATS,
            n == cells@.len() == order@.len() <= u32::MAX,
            keys == splat_keys(cells@, importance),
            is_order(keys, order@),
            n * stride <= payload@.len(),
            start <= n,
            forall|e: int|
                0 <= e < entries@.len() ==> describes_cell(
                    #[trigger] entries@[e],
                    cells@,
                    payload@,
                    stride as int,
                ),
            contiguous(entries@, start as int),
            start > 0 ==> entries@.len() > 0 && entries@[entries@.len() - 1].grid
                == cells@[order@[start - 1] as int],
            0 < start < n ==> cells@[order@[start - 1] as int] != cells@[order@[start as int] as int],
            forall|a: int, b: int|
                0 <= a < b < entries@.len() ==> cell_before(
                    (#[trigger] entries@[a]).grid,
                    (#[trigger] entries@[b]).grid,
                ),
            forall|p: int|
                0 <= p < start ==> has_cell(entries@, cells@[#[trigger] order@[p] as int]),
            radii@.len() == entries@.len(),
            forall|e: int|
                0 <= e < radii@.len() ==> #[trigger] radii@[e] == largest_radius(
                    payload@,
                    stride as int,
                    entries@[e].offset as int,
                    entries@[e].offset + entries@[e].count,
                ),
        decreases n - start,
    {
        let grid: [i32; 3] = cells[order[start]];
        let code: i128 = encode_cell(grid);
        let mut end: usize = start + 1;
        while end < n && encode_cell(cells[order[end]]) == code
            invariant
                start < end <= n,
                n == cells@.len() == order@.len(),
                is_order(keys, order@),
                keys == splat_keys(cells@, importance),
                grid == cells@[order@[start as int] as int],
                code == cell_code(grid),
                forall|p: int|
                    start <= p < end ==> cells@[#[trigger] order@[p] as int] == grid,
            decreases n - end,
        {
            proof {
                lemma_cell_code(cells@[order@[end as int] as int], grid);
            }
            end = end + 1;
        }
        proof {
            if end < n {
                lemma_cell_code(cells@[order@[end as int] as int], grid);
            }
            lemma_run_counts(cells@, importance, order@, start as int, end as int);
            assert(end * stride <= n * stride) by (nonlinear_arith)
                requires
                    end <= n,
            ;
        }
        let ghost before = entries@;
        let entry: ChunkEntry = make_entry(payload, stride, grid, start, end);
        let radius: F32 = max_radius(payload, stride, start, end);
        entries.push(entry);
        radii.push(radius);
        proof {
            assert(describes_cell(entry, cells@, payload@, stride as int));
            assert forall|a: int, b: int| 0 <= a < b < entries@.len() implies cell_before(
                (#[trigger] entries@[a]).grid,
                (#[trigger] entries@[b]).grid,
            ) by {
                if b == before.len() {
                    let last = before[before.len() - 1].grid;
                    assert(precedes(keys, order@[start - 1] as int, order@[start as int] as int));
                    lemma_cell_code(last, grid);
                    if a < before.len() - 1 {
                        assert(cell_before(before[a].grid, before[before.len() - 1].grid));
                    }
                } else {
                    assert(cell_before(before[a].grid, before[b].grid));
                }
            }
            assert forall|p: int| 0 <= p < end implies has_cell(
                entries@,
                cells@[#[trigger] order@[p] as int],
            ) by {
                if p < start {
                    assert(has_cell(before, cells@[order@[p] as int]));
                    let e = choose|e: int|
                        0 <= e < before.len() && (#[trigger] before[e]).grid
                            == cells@[order@[p] as int];
                    assert(entries@[e].grid == cells@[order@[p] as int]);
                } else {
                    assert(entries@[before.len() as int].grid == cells@[order@[p] as int]);
                }
            }
            assert forall|e: int| 0 <= e < entries@.len() implies (#[trigger] entries@[e]).offset
                == chunk_start(entries@, e) by {
                if e < before.len() {
                    assert(before[e].offset == chunk_start(before, e));
                } else {
                    assert(chunk_start(before, before.len() as int) == start);
                }
            }
        }
        start = end;
    }
    proof {
        assert forall|i: int| 0 <= i < cells@.len() implies has_cell(
            entries@,
            #[trigger] cells@[i],
        ) by {
            lemma_position_in_order(keys, order@, i);
            let p = position(keys, i);
            assert(has_cell(entries@, cells@[order@[p] as int]));
        }
    }
    (entries, radii)
}

/// Whether `out`, described by `table` and with the largest radii `radii`, is a payload partitioned
/// into grid chunks: the splats of a cell are put together, the most important first, equally
/// important ones in the order they had.
pub open spec fn is_partition(
    payload: Seq<F32>,
    chunk_size: F32,
    stride: usize,
    cells: Seq<[i32; 3]>,
    importance: Seq<F32>,
    out: Seq<F32>,
    table: ChunkTable,
    radii: Seq<F32>,
) -> bool {
    let width = effective_stride(stride);
    let n = cells.len() as int;
    let keys = splat_keys(cells, importance);
    &&& table.chunk_size == edge_of(chunk_size)
    &&& table.grid_origin == origin_of(payload, width, n)
    &&& table.stride == width
    &&& out.len() == n * width
    &&& forall|i: int, f: int|
        0 <= i < n && 0 <= f < width ==> #[trigger] field_of(payload, width, i, f) == field_of(
            out,
            width,
            position(keys, i),
            f,
        )
    &&& forall|e: int|
        0 <= e < table.entries@.len() ==> describes_cell(
            #[trigger] table.entries@[e],
            cells,
            out,
            width,
        )
    &&& contiguous(table.entries@, n)
    &&& lists_cells(table.entries@, cells)
    &&& radii.len() == table.entries@.len()
    &&& forall|e: int|
        0 <= e < radii.len() ==> #[trigger] radii[e] == largest_radius(
            out,
            width,
            table.entries@[e].offset as int,
            table.entries@[e].offset + table.entries@[e].count,
        )
}

/// Partitions a payload into grid chunks. `cells` gives the cell of every splat, `importance` how
/// much it contributes.
pub fn partition_payload(
    payload: &[F32],
    chunk_size: F32,
    stride: usize,
    cells: &Vec<[i32; 3]>,
    importance: &Vec<F32>,
) -> (result: PartitionedPayload)
    requires
        cells@.len() == payload@.len() as int / effective_stride(stride),
        importance@.len() == cells@.len(),
        cells@.len() <= u32::MAX,
    ensures
        is_partition(
            payload@,
            chunk_size,
            stride,
            cells@,
            importance@,
            result.payload@,
            result.table,
            result.max_radii@,
        ),
{
    let width: usize = effective_splat_stride(stride);
    let n: usize = cells.len();
    let origin: [F32; 3] = grid_origin(payload, stride);
    let mut keys: Vec<SortKey> = Vec::new();
    let mut i: usize = 0;
    while i < n
        invariant
            i <= n == cells@.len() == importance@.len(),
            keys@ == splat_keys(cells@, importance@).take(i as int),
        decreases n - i,
    {
        let key = SortKey {
            major: encode_cell(cells[i]),
            minor: importance[i].to_descending_rank(),
        };
        keys.push(key);
        assert(keys@ =~= splat_keys(cells@, importance@).take(i + 1));
        i = i + 1;
    }
    assert(keys@ =~= splat_keys(cells@, importance@));
    let order: Vec<usize> = stable_order(&keys);
    proof {
        lemma_whole_splats(payload@.len() as int, width as int);
    }
    let reordered: Vec<F32> = copy_in_order(payload, width, &order);
    let (entries, max_radii): (Vec<ChunkEntry>, Vec<F32>) = table_entries(
        reordered.as_slice(),
        width,
        cells,
        &order,
        Ghost(importance@),
    );
    proof {
        assert forall|i: int, f: int|
            0 <= i < n && 0 <= f < width implies #[trigger] field_of(payload@, width as int, i, f)
            == field_of(reordered@, width as int, position(keys@, i), f) by {
            lemma_position_in_order(keys@, order@, i);
            assert(field_of(reordered@, width as int, position(keys@, i), f) == field_of(
                payload@,
                width as int,
                order@[position(keys@, i)] as int,
                f,
            ));
        }
    }
    PartitionedPayload {
        payload: reordered,
        table: ChunkTable {
            chunk_size: effective_chunk_size(chunk_size),
            grid_origin: origin,
            entries,
            stride: width,
        },
        max_radii,
    }
}

/// Reordering moves every splat to a place of its own: nothing is lost and nothing is doubled.
pub proof fn reordering_is_a_permutation(
    cells: Seq<[i32; 3]>,
    importance: Seq<F32>,
    i: int,
    j: int,
)
    requires
        0 <= i < cells.len(),
        0 <= j < cells.len(),
        i != j,
    ensures
        0 <= position(splat_keys(cells, importance), i) < cells.len(),
        position(splat_keys(cells, importance), i) != position(splat_keys(cells, importance), j),
{
    positions_are_a_permutation(splat_keys(cells, importance), i, j);
}

/// Within a chunk, importance never rises from one splat to a later one.
pub proof fn important_splats_come_first(
    cells: Seq<[i32; 3]>,
    importance: Seq<F32>,
    i: int,
    j: int,
)
    requires
        0 <= i < cells.len(),
        0 <= j < cells.len(),
        cells[i] == cells[j],
        importance[j].below(importance[i]),
    ensures
        position(splat_keys(cells, importance), i) < position(splat_keys(cells, importance), j),
{
    positions_are_a_permutation(splat_keys(cells, importance), i, j);
}

/// The center of every splat of a chunk lies within the chunk's bounds.
pub proof fn centers_lie_within_bounds(
    payload: Seq<F32>,
    stride: int,
    from: int,
    to: int,
    p: int,
    k: int,
)
    requires
        from <= p < to,
        0 <= k < 3,
        !field_of(payload, stride, p, k).nan(),
    ensures
        low_corner(payload, stride, from, to)[k].at_most(field_of(payload, stride, p, k)),
        field_of(payload, stride, p, k).at_most(high_corner(payload, stride, from, to)[k]),
{
    let values = column(payload, stride, k, from, to);
    assert(values[p - from] == field_of(payload, stride, p, k));
    lowest_bounds(values, p - from);
    highest_bounds(values, p - from);
}

/// What chunks are sorted by: the nearest first.
pub open spec fn distance_keys(distances: Seq<F32>) -> Seq<SortKey> {
    Seq::new(
        distances.len(),
        |i: int| SortKey { major: distances[i].sort_rank() as i128, minor: 0 },
    )
}

/// The splats of chunk `c`.
pub open spec fn splats_of(entries: Seq<ChunkEntry>) -> spec_fn(int) -> int {
    |c: int| entries[c].count as int
}

/// The splats of all chunks.
pub open spec fn splat_total(entries: Seq<ChunkEntry>) -> int {
    sum_of(splats_of(entries), entries.len())
}

/// What the budget leaves for chunk `c` when all nearer chunks have been served: as many splats
/// as it has, or as the budget still allows; nothing once the budget is used up.
pub open spec fn share_of(
    entries: Seq<ChunkEntry>,
    distances: Seq<F32>,
    budget: int,
    c: int,
) -> Option<u32> {
    let used = weight_before(distance_keys(distances), splats_of(entries), c);
    if used < budget {
        Some(least(entries[c].count as int, budget - used) as u32)
    } else {
        None
    }
}

/// The first `n` chunks that get a share, in chunk order, each with its share.
pub open spec fn nearest_chunks(
    entries: Seq<ChunkEntry>,
    distances: Seq<F32>,
    budget: int,
    n: nat,
) -> Seq<(u32, u32)>
    decreases n,
{
    if n == 0 {
        Seq::empty()
    } else {
        let prev = nearest_chunks(entries, distances, budget, (n - 1) as nat);
        match share_of(entries, distances, budget, n - 1) {
            Some(share) => prev.push(((n - 1) as u32, share)),
            None => prev,
        }
    }
}

/// What chunk `c` gets, nothing counting as zero.
spec fn share_weight(
    entries: Seq<ChunkEntry>,
    distances: Seq<F32>,
    budget: int,
) -> spec_fn(int) -> int {
    |c: int|
        match share_of(entries, distances, budget, c) {
            Some(share) => share as int,
            None => 0,
        }
}

/// Listing the shares in chunk order adds them all up.
proof fn lemma_shares_listed(
    entries: Seq<ChunkEntry>,
    distances: Seq<F32>,
    budget: int,
    n: nat,
)
    ensures
        selected_total(nearest_chunks(entries, distances, budget, n)) == sum_of(
            share_weight(entries, distances, budget),
            n,
        ),
    decreases n,
{
    if n > 0 {
        lemma_shares_listed(entries, distances, budget, (n - 1) as nat);
        let prev = nearest_chunks(entries, distances, budget, (n - 1) as nat);
        let next = nearest_chunks(entries, distances, budget, n);
        if share_of(entries, distances, budget, n - 1) is Some {
            assert(next.drop_last() =~= prev);
        }
    }
}

/// Along the order of distances, the shares use up the budget as far as the splats go.
proof fn lemma_shares_fill(
    entries: Seq<ChunkEntry>,
    distances: Seq<F32>,
    order: Seq<usize>,
    budget: int,
    p: nat,
)
    requires
        entries.len() == distances.len(),
        0 <= budget <= u32::MAX,
        is_order(distance_keys(distances), order),
        p <= order.len(),
    ensures
        prefix_weight(order, share_weight(entries, distances, budget), p) == least(
            budget,
            prefix_weight(order, splats_of(entries), p),
        ),
        prefix_weight(order, splats_of(entries), p) >= 0,
    decreases p,
{
    if p > 0 {
        lemma_shares_fill(entries, distances, order, budget, (p - 1) as nat);
        lemma_before_is_prefix(distance_keys(distances), order, splats_of(entries), p - 1);
    }
}

/// The weight passed along a whole order is the weight of everything.
proof fn lemma_prefix_is_all(keys: Seq<SortKey>, order: Seq<usize>, weights: spec_fn(int) -> int)
    requires
        is_order(keys, order),
    ensures
        prefix_weight(order, weights, order.len()) == sum_of(weights, keys.len()),
{
    let n = keys.len();
    lemma_prefix_is_filtered_sum(keys, order, weights, n);
    let met = |j: int|
        if among_first(order, n as int, j) {
            weights(j)
        } else {
            0
        };
    assert forall|j: int| 0 <= j < n implies #[trigger] met(j) == weights(j) by {
        assert(order.contains(j as usize));
        let q = choose|q: int| 0 <= q < order.len() && order[q] == j as usize;
        assert(order[q] == j);
    }
    lemma_sum_agree(met, weights, n);
}

/// Selects the chunks nearest to the viewer until the budget is used up: whole chunks, and of the
/// last one the most important splats that still fit. `distances` says how far each chunk is; one
/// whose distance is no number counts as the farthest.
pub fn select_chunks(table: &ChunkTable, distances: &Vec<F32>, budget: u32) -> (selected: Vec<
    (u32, u32),
>)
    requires
        distances@.len() == table.entries@.len(),
        table.entries@.len() <= u32::MAX,
    ensures
        selected@ == nearest_chunks(
            table.entries@,
            distances@,
            budget as int,
            table.entries@.len(),
        ),
        selected_total(selected@) == least(budget as int, splat_total(table.entries@)),
{
    let ghost entries = table.entries@;
    let ghost weights = splats_of(entries);
    let mut keys: Vec<SortKey> = Vec::new();
    let mut i: usize = 0;
    while i < distances.len()
        invariant
            i <= distances@.len(),
            keys@ == distance_keys(distances@).take(i as int),
        decreases distances@.len() - i,
    {
        let rank: i64 = distances[i].to_sort_rank();
        keys.push(SortKey { major: rank as i128, minor: 0 });
        assert(keys@ =~= distance_keys(distances@).take(i + 1));
        i = i + 1;
    }
    assert(keys@ =~= distance_keys(distances@));
    let order: Vec<usize> = stable_order(&keys);
    let n: usize = order.len();
    let mut shares: Vec<Option<u32>> = Vec::new();
    i = 0;
    while i < n
        invariant
            i <= n,
            shares@.len() == i,
            forall|c: int| 0 <= c < i ==> #[trigger] shares@[c] == None::<u32>,
        decreases n - i,
    {
        shares.push(None);
        i = i + 1;
    }
    let mut remaining: u32 = budget;
    let mut open: bool = budget > 0;
    let mut p: usize = 0;
    while p < n
        invariant
            entries == table.entries@,
            weights == splats_of(entries),
            n == order@.len() == entries.len() == distances@.len() == shares@.len(),
            keys@ == distance_keys(distances@),
            is_order(keys@, order@),
            p <= n,
            remaining <= budget,
            open ==> remaining > 0 && remaining == budget - prefix_weight(
                order@,
                weights,
                p as nat,
            ),
            !open ==> prefix_weight(order@, weights, p as nat) >= budget,
            forall|q: int|
                0 <= q < p ==> shares@[#[trigger] order@[q] as int] == share_of(
                    entries,
                    distances@,
                    budget as int,
                    order@[q] as int,
                ),
            forall|q: int| p <= q < n ==> shares@[#[trigger] order@[q] as int] == None::<u32>,
        decreases n - p,
    {
        let c: usize = order[p];
        proof {
            lemma_before_is_prefix(keys@, order@, weights, p as int);
            assert forall|q: int| 0 <= q < n && q != p implies #[trigger] order@[q] != c by {
                lemma_order_position(keys@, order@, q);
                lemma_order_position(keys@, order@, p as int);
            }
        }
        if open {
            let count: u32 = table.entries[c].count;
            if count < remaining {
                shares.set(c, Some(count));
                remaining = remaining - count;
            } else {
                shares.set(c, Some(remaining));
                open = false;
            }
        }
        p = p + 1;
    }
    let mut selected: Vec<(u32, u32)> = Vec::new();
    i = 0;
    while i < n
        invariant
            n == order@.len() == entries.len() == distances@.len() == shares@.len() <= u32::MAX,
            keys@ == distance_keys(distances@),
            is_order(keys@, order@),
            i <= n,
            forall|q: int|
                0 <= q < n ==> shares@[#[trigger] order@[q] as int] == share_of(
                    entries,
                    distances@,
                    budget as int,
                    order@[q] as int,
                ),
            selected@ == nearest_chunks(entries, distances@, budget as int, i as nat),
        decreases n - i,
    {
        proof {
            lemma_position_in_order(keys@, order@, i as int);
            let q = position(keys@, i as int);
            assert(shares@[order@[q] as int] == share_of(
                entries,
                distances@,
                budget as int,
                order@[q] as int,
            ));
        }
        if let Some(share) = shares[i] {
            selected.push((i as u32, share));
        }
        i = i + 1;
    }
    proof {
        lemma_shares_fill(entries, distances@, order@, budget as int, n as nat);
        lemma_shares_listed(entries, distances@, budget as int, n as nat);
        lemma_prefix_is_all(keys@, order@, weights);
        lemma_prefix_is_all(keys@, order@, share_weight(entries, distances@, budget as int));
    }
    selected
}

/// The nearest chunks take up the budget as far as there are splats, and never more.
pub proof fn nearest_respects_budget(entries: Seq<ChunkEntry>, distances: Seq<F32>, budget: int)
    requires
        entries.len() == distances.len() <= usize::MAX,
        0 <= budget <= u32::MAX,
    ensures
        selected_total(nearest_chunks(entries, distances, budget, entries.len())) == least(
            budget,
            splat_total(entries),
        ),
{
    let keys = distance_keys(distances);
    let order = crate::sorting::order_of(keys);
    crate::sorting::lemma_order_exists(keys);
    lemma_shares_fill(entries, distances, order, budget, entries.len());
    lemma_shares_listed(entries, distances, budget, entries.len());
    lemma_prefix_is_all(keys, order, splats_of(entries));
    lemma_prefix_is_all(keys, order, share_weight(entries, distances, budget));
}

/// Where the budget reaches for everything, every chunk is selected in full.
pub proof fn ample_budget_selects_everything(
    entries: Seq<ChunkEntry>,
    distances: Seq<F32>,
    budget: int,
    n: nat,
)
    requires
        entries.len() == distances.len() <= u32::MAX,
        n <= entries.len(),
        splat_total(entries) <= budget <= u32::MAX,
        forall|c: int| 0 <= c < entries.len() ==> (#[trigger] entries[c]).count >= 1,
    ensures
        nearest_chunks(entries, distances, budget, n) == Seq::new(
            n,
            |c: int| (c as u32, entries[c].count),
        ),
    decreases n,
{
    let all = Seq::new(n, |c: int| (c as u32, entries[c].count));
    if n > 0 {
        ample_budget_selects_everything(entries, distances, budget, (n - 1) as nat);
        lemma_weight_before_within(distance_keys(distances), splats_of(entries), n - 1);
    }
    assert(nearest_chunks(entries, distances, budget, n) =~= all);
}

/// The share of a chunk where the budget is spread over all chunks: all its splats where they all
/// fit, else its part of the budget, rounded down.
pub open spec fn coverage_share(count: int, total: int, budget: int) -> int {
    if total <= budget {
        count
    } else {
        count * budget / total
    }
}

/// The first `n` chunks that get a share where the budget is spread, in chunk order.
pub open spec fn covered_chunks(entries: Seq<ChunkEntry>, budget: int, n: nat) -> Seq<(u32, u32)>
    decreases n,
{
    if n == 0 {
        Seq::empty()
    } else {
        let prev = covered_chunks(entries, budget, (n - 1) as nat);
        let share = coverage_share(entries[n - 1].count as int, splat_total(entries), budget);
        if share > 0 {
            prev.push(((n - 1) as u32, share as u32))
        } else {
            prev
        }
    }
}

/// Splats of chunks add up step by step, and stay below their sum.
proof fn lemma_splats_within(entries: Seq<ChunkEntry>, m: nat, n: nat)
    requires
        m <= n <= entries.len(),
    ensures
        0 <= sum_of(splats_of(entries), m) <= sum_of(splats_of(entries), n),
    decreases n,
{
    if m < n {
        lemma_splats_within(entries, m, (n - 1) as nat);
    } else if n > 0 {
        lemma_splats_within(entries, (m - 1) as nat, (n - 1) as nat);
    }
}

/// Spread shares stay within the budget, and none is larger than its chunk.
proof fn lemma_coverage_step(count: int, total: int, budget: int, before: int, taken: int)
    requires
        0 <= count,
        0 <= before,
        before + count <= total,
        0 <= budget < total,
        taken * total <= before * budget,
    ensures
        0 <= count * budget / total <= count,
        (taken + count * budget / total) * total <= (before + count) * budget,
{
    let share = count * budget / total;
    assert(share * total <= count * budget && 0 <= share <= count) by (nonlinear_arith)
        requires
            share == count * budget / total,
            0 <= count,
            0 <= budget < total,
    ;
    assert((taken + share) * total <= (before + count) * budget) by (nonlinear_arith)
        requires
            share * total <= count * budget,
            taken * total <= before * budget,
    ;
}

/// Spreads the budget over all chunks in proportion to their size: every chunk keeps its most
/// important splats, so that the whole extent stays visible at reduced density.
pub fn select_chunks_coverage(table: &ChunkTable, budget: u32) -> (selected: Vec<(u32, u32)>)
    requires
        table.entries@.len() <= u32::MAX,
    ensures
        selected@ == covered_chunks(table.entries@, budget as int, table.entries@.len()),
        selected_total(selected@) <= budget,
{
    let ghost entries = table.entries@;
    let ghost weights = splats_of(entries);
    let mut total: u64 = 0;
    let mut i: usize = 0;
    while i < table.entries.len()
        invariant
            i <= entries.len() <= u32::MAX,
            entries == table.entries@,
            weights == splats_of(entries),
            total == sum_of(weights, i as nat),
            total <= i * u32::MAX,
        decreases entries.len() - i,
    {
        assert(i * u32::MAX + u32::MAX <= u32::MAX * u32::MAX) by (nonlinear_arith)
            requires
                i + 1 <= u32::MAX,
        ;
        assert((i + 1) * u32::MAX == i * u32::MAX + u32::MAX) by (nonlinear_arith);
        total = total + table.entries[i].count as u64;
        i = i + 1;
    }
    let mut selected: Vec<(u32, u32)> = Vec::new();
    let ghost mut taken: int = 0;
    let mut c: usize = 0;
    assert(0 * total <= 0 * budget) by (nonlinear_arith);
    while c < table.entries.len()
        invariant
            c <= entries.len() <= u32::MAX,
            entries == table.entries@,
            weights == splats_of(entries),
            total == splat_total(entries),
            selected@ == covered_chunks(entries, budget as int, c as nat),
            taken == selected_total(selected@),
            total <= budget ==> taken == sum_of(weights, c as nat),
            total > budget ==> taken * total <= sum_of(weights, c as nat) * budget,
        decreases entries.len() - c,
    {
        let count: u32 = table.entries[c].count;
        let ghost before = sum_of(weights, c as nat);
        proof {
            lemma_splats_within(entries, c as nat, (c + 1) as nat);
            lemma_splats_within(entries, (c + 1) as nat, entries.len());
            if total > budget {
                lemma_coverage_step(count as int, total as int, budget as int, before, taken);
            }
            assert(0 <= count * budget <= 0xffff_ffff * 0xffff_ffff) by (nonlinear_arith)
                requires
                    0 <= count <= 0xffff_ffff,
                    0 <= budget <= 0xffff_ffff,
            ;
        }
        let share: u32 = if total <= budget as u64 {
            count
        } else {
            (count as u64 * budget as u64 / total) as u32
        };
        let ghost prev = selected@;
        if share > 0 {
            selected.push((c as u32, share));
            assert(selected@.drop_last() =~= prev);
        }
        proof {
            taken = taken + share;
        }
        c = c + 1;
    }
    proof {
        if total > budget {
            assert(taken <= budget) by (nonlinear_arith)
                requires
                    taken * total <= total * budget,
                    total > 0,
            ;
        }
    }
    selected
}

/// The splats that one item of a selection stands for: the first of its chunk, as many as asked
/// for and there are. An item whose chunk is missing, or reaches past the payload, has none.
pub open spec fn chunk_prefix(
    payload: Seq<F32>,
    entries: Seq<ChunkEntry>,
    stride: int,
    item: (u32, u32),
) -> Seq<F32> {
    if item.0 < entries.len() {
        let entry = entries[item.0 as int];
        let end = (entry.offset + least(item.1 as int, entry.count as int)) * stride;
        if end <= payload.len() {
            payload.subrange(entry.offset * stride, end)
        } else {
            Seq::empty()
        }
    } else {
        Seq::empty()
    }
}

/// The splats that the first `n` items of a selection stand for, one after the other.
pub open spec fn gathered(
    payload: Seq<F32>,
    entries: Seq<ChunkEntry>,
    stride: int,
    active: Seq<(u32, u32)>,
    n: nat,
) -> Seq<F32>
    decreases n,
{
    if n == 0 {
        Seq::empty()
    } else {
        gathered(payload, entries, stride, active, (n - 1) as nat) + chunk_prefix(
            payload,
            entries,
            stride,
            active[n - 1],
        )
    }
}

/// Gathers the splats of a selection into one run.
pub fn gather_active(payload: &[F32], table: &ChunkTable, active: &[(u32, u32)]) -> (out: Vec<F32>)
    ensures
        out@ == gathered(
            payload@,
            table.entries@,
            effective_stride(table.stride),
            active@,
            active@.len(),
        ),
{
    let stride: usize = effective_splat_stride(table.stride);
    let mut out: Vec<F32> = Vec::new();
    let mut i: usize = 0;
    while i < active.len()
        invariant
            i <= active@.len(),
            stride == effective_stride(table.stride),
            out@ == gathered(payload@, table.entries@, stride as int, active@, i as nat),
        decreases active@.len() - i,
    {
        let (chunk_index, lod_count): (u32, u32) = active[i];
        let ghost before = out@;
        let ghost more = chunk_prefix(payload@, table.entries@, stride as int, active@[i as int]);
        if (chunk_index as usize) < table.entries.len() {
            let entry: ChunkEntry = table.entries[chunk_index as usize];
            let take: u32 = if lod_count <= entry.count {
                lod_count
            } else {
                entry.count
            };
            let last: u64 = entry.offset as u64 + take as u64;
            assert(last as u128 * stride as u128 <= 0x1_ffff_ffff * 0xffff_ffff_ffff_ffff)
                by (nonlinear_arith)
                requires
                    last <= 0x1_ffff_ffff,
                    stride <= 0xffff_ffff_ffff_ffff,
            ;
            if last as u128 * stride as u128 <= payload.len() as u128 {
                proof {
                    assert(0 <= entry.offset * stride <= last * stride) by (nonlinear_arith)
                        requires
                            0 <= entry.offset <= last,
                            0 <= stride,
                    ;
                    assert(last <= last * stride) by (nonlinear_arith)
                        requires
                            last >= 0,
                            stride >= 1,
                    ;
                }
                let start: usize = entry.offset as usize * stride;
                let end: usize = last as usize * stride;
                out.extend_from_slice(slice_subrange(payload, start, end));
            }
        }
        assert(out@ =~= before + more);
        i = i + 1;
    }
    out
}

/// The lower bounds of the first `n` chunks along axis `k`.
pub open spec fn lower_bounds(entries: Seq<ChunkEntry>, k: int, n: nat) -> Seq<F32> {
    Seq::new(n, |e: int| entries[e].aabb_min[k])
}

/// The upper bounds of the first `n` chunks along axis `k`.
pub open spec fn upper_bounds(entries: Seq<ChunkEntry>, k: int, n: nat) -> Seq<F32> {
    Seq::new(n, |e: int| entries[e].aabb_max[k])
}

/// The bounds of all chunks together, if there are any.
pub open spec fn union_bounds(entries: Seq<ChunkEntry>) -> Option<([F32; 3], [F32; 3])> {
    let n = entries.len();
    if lowest(lower_bounds(entries, 0, n)).finite() {
        Some(
            (
                [
                    lowest(lower_bounds(entries, 0, n)),
                    lowest(lower_bounds(entries, 1, n)),
                    lowest(lower_bounds(entries, 2, n)),
                ],
                [
                    highest(upper_bounds(entries, 0, n)),
                    highest(upper_bounds(entries, 1, n)),
                    highest(upper_bounds(entries, 2, n)),
                ],
            ),
        )
    } else {
        None
    }
}

/// The bounds of all chunks along axis `k`.
fn axis_bounds(entries: &Vec<ChunkEntry>, k: usize) -> (bounds: (F32, F32))
    requires
        k < 3,
    ensures
        bounds.0 == lowest(lower_bounds(entries@, k as int, entries@.len())),
        bounds.1 == highest(upper_bounds(entries@, k as int, entries@.len())),
{
    let mut low = F32 { bits: INFINITY_BITS };
    let mut high = F32 { bits: NEG_INFINITY_BITS };
    let mut e: usize = 0;
    while e < entries.len()
        invariant
            k < 3,
            e <= entries@.len(),
            low == lowest(lower_bounds(entries@, k as int, e as nat)),
            high == highest(upper_bounds(entries@, k as int, e as nat)),
        decreases entries@.len() - e,
    {
        let entry: ChunkEntry = entries[e];
        proof {
            let lows = lower_bounds(entries@, k as int, (e + 1) as nat);
            let highs = upper_bounds(entries@, k as int, (e + 1) as nat);
            assert(lows.drop_last() =~= lower_bounds(entries@, k as int, e as nat));
            assert(highs.drop_last() =~= upper_bounds(entries@, k as int, e as nat));
        }
        low = low.min(entry.aabb_min[k]);
        high = high.max(entry.aabb_max[k]);
        e = e + 1;
    }
    (low, high)
}

/// The bounds of all chunks together; nothing where there are none, or the first is unbounded.
pub fn table_bounds(table: &ChunkTable) -> (bounds: Option<([F32; 3], [F32; 3])>)
    ensures
        bounds == union_bounds(table.entries@),
{
    let (x0, x1): (F32, F32) = axis_bounds(&table.entries, 0);
    let (y0, y1): (F32, F32) = axis_bounds(&table.entries, 1);
    let (z0, z1): (F32, F32) = axis_bounds(&table.entries, 2);
    if !x0.is_finite() {
        return None;
    }
    let low: [F32; 3] = [x0, y0, z0];
    let high: [F32; 3] = [x1, y1, z1];
    proof {
        let want = union_bounds(table.entries@)->0;
        assert(low =~= want.0);
        assert(high =~= want.1);
    }
    Some((low, high))
}

} // verus!
