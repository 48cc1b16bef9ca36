//! Chunks: where the splats of a payload go, and which of them a budget shows.

use crate::chunking::{
    cell_before, chunk_prefix, coverage_share, covered_chunks, field_of, gathered, is_partition,
    largest_radius, lemma_cell_code, nearest_chunks, same_cell, share_of, splat_keys, splat_radius,
    splat_total, splats_before_cell, splats_in_cell, splats_of, union_bounds, ChunkEntry,
    ChunkTable,
};
use crate::extents::{column, highest, lowest};
use crate::floats::F32;
use crate::gsplat_pack::layout::{effective_stride, least};
use crate::laws::numbers::{columns_are_enclosed, extremes_enclose_and_are_attained};
use crate::sorting::{
    lemma_sum_agree, lemma_sum_monotone, lemma_sum_raise, position, positions_are_a_permutation,
    precedes, sum_of,
};
use vstd::prelude::*;

verus! {

/// The numbers of one splat in a payload that is said to have `stride` of them.
pub open spec fn width_of(stride: usize) -> int {
    if stride < 18 {
        18
    } else {
        stride as int
    }
}

/// The core layout is the least that a splat has.
pub proof fn splats_have_the_core_layout(stride: usize)
    ensures
        effective_stride(stride) == width_of(stride),
{
}

/// Whether the splats of a payload stand at the given places of a reordered one: each at a place
/// of its own, with all its fields.
pub open spec fn stand_at(
    payload: Seq<F32>,
    width: int,
    out: Seq<F32>,
    places: Seq<int>,
) -> bool {
    &&& out.len() == places.len() * width
    &&& forall|i: int| 0 <= i < places.len() ==> 0 <= #[trigger] places[i] < places.len()
    &&& forall|i: int, j: int|
        0 <= i < places.len() && 0 <= j < places.len() && i != j ==> #[trigger] places[i]
            != #[trigger] places[j]
    &&& forall|i: int, f: int|
        #![trigger payload[i * width + f]]
        0 <= i < places.len() && 0 <= f < width ==> out[places[i] * width + f] == payload[i * width
            + f]
}

/// Whether every splat stands in the chunk of its cell.
pub open spec fn are_grouped(
    cells: Seq<[i32; 3]>,
    entries: Seq<ChunkEntry>,
    places: Seq<int>,
) -> bool {
    forall|i: int| 0 <= i < cells.len() ==> is_housed(entries, #[trigger] cells[i], places[i])
}

/// Whether a place lies in a chunk of the given cell.
pub open spec fn is_housed(entries: Seq<ChunkEntry>, cell: [i32; 3], place: int) -> bool {
    exists|e: int|
        0 <= e < entries.len() && (#[trigger] entries[e]).grid == cell && entries[e].offset <= place
            < entries[e].offset + entries[e].count
}

/// Whether the splats of a cell stand in the order of their importance: more important ones first,
/// equally important ones as they stood before, those without a number last.
pub open spec fn are_ranked(
    cells: Seq<[i32; 3]>,
    importance: Seq<F32>,
    places: Seq<int>,
) -> bool {
    forall|i: int, j: int|
        #![trigger places[i], places[j]]
        0 <= i < cells.len() && 0 <= j < cells.len() && cells[i] == cells[j] ==> {
            &&& importance[j].below(importance[i]) ==> places[i] < places[j]
            &&& !importance[i].nan() && importance[j].nan() ==> places[i] < places[j]
            &&& i < j && importance[i].scaled() == importance[j].scaled() && !importance[i].nan()
                && !importance[j].nan() ==> places[i] < places[j]
            &&& i < j && importance[i].nan() && importance[j].nan() ==> places[i] < places[j]
        }
}

proof fn lemma_place_in_cell(cells: Seq<[i32; 3]>, importance: Seq<F32>, i: int)
    requires
        0 <= i < cells.len(),
        importance.len() == cells.len(),
    ensures
        splats_before_cell(cells, cells[i]) <= position(splat_keys(cells, importance), i)
            < splats_before_cell(cells, cells[i]) + splats_in_cell(cells, cells[i]),
{
    let keys = splat_keys(cells, importance);
    let n = cells.len();
    let before = |j: int|
        if cell_before(cells[j], cells[i]) {
            1int
        } else {
            0
        };
    let own = |j: int|
        if same_cell(cells[j], cells[i]) {
            1int
        } else {
            0
        };
    let both = |j: int| before(j) + own(j);
    let ones = |j: int| 1int;
    let ahead = |j: int|
        if precedes(keys, j, i) {
            ones(j)
        } else {
            0
        };
    let with_i = |j: int|
        if j == i {
            1int
        } else {
            ahead(j)
        };
    assert forall|j: int| 0 <= j < n implies #[trigger] before(j) <= ahead(j) by {
        lemma_cell_code(cells[j], cells[i]);
    }
    assert forall|j: int| 0 <= j < n implies #[trigger] with_i(j) <= both(j) by {
        lemma_cell_code(cells[j], cells[i]);
        crate::laws::numbers::ranks_sort_numbers(importance[i], importance[j]);
    }
    lemma_sum_monotone(before, ahead, n);
    lemma_sum_raise(ahead, with_i, n, i, 1);
    lemma_sum_monotone(with_i, both, n);
    crate::sorting::lemma_sum_add(before, own, both, n);
}

/// A partitioned payload holds every splat once, whole, in the chunk of its cell, the most
/// important splats of a cell first.
pub proof fn partition_moves_splats(
    payload: Seq<F32>,
    chunk_size: F32,
    stride: usize,
    cells: Seq<[i32; 3]>,
    importance: Seq<F32>,
    out: Seq<F32>,
    table: ChunkTable,
    radii: Seq<F32>,
) -> (places: Seq<int>)
    requires
        is_partition(payload, chunk_size, stride, cells, importance, out, table, radii),
        importance.len() == cells.len(),
    ensures
        places.len() == cells.len(),
        stand_at(payload, width_of(stride), out, places),
        are_grouped(cells, table.entries@, places),
        are_ranked(cells, importance, places),
        table.stride == width_of(stride),
{
    let keys = splat_keys(cells, importance);
    let width = width_of(stride);
    let n = cells.len() as int;
    let places = Seq::new(cells.len(), |i: int| position(keys, i));
    assert forall|i: int| 0 <= i < n implies 0 <= #[trigger] places[i] < n by {
        lemma_place_range(keys, i);
    }
    assert forall|i: int, j: int| 0 <= i < n && 0 <= j < n && i != j implies #[trigger] places[i]
        != #[trigger] places[j] by {
        positions_are_a_permutation(keys, i, j);
    }
    assert forall|i: int, f: int|
        #![trigger payload[i * width + f]]
        0 <= i < n && 0 <= f < width implies out[places[i] * width + f] == payload[i * width
        + f] by {
        assert(field_of(payload, width, i, f) == field_of(out, width, position(keys, i), f));
    }
    assert forall|i: int| 0 <= i < n implies is_housed(
        table.entries@,
        #[trigger] cells[i],
        places[i],
    ) by {
        lemma_place_in_cell(cells, importance, i);
        assert(crate::chunking::has_cell(table.entries@, cells[i]));
        let e = choose|e: int|
            0 <= e < table.entries@.len() && (#[trigger] table.entries@[e]).grid == cells[i];
        assert(crate::chunking::describes_cell(table.entries@[e], cells, out, width));
    }
    assert forall|i: int, j: int|
        #![trigger places[i], places[j]]
        0 <= i < n && 0 <= j < n && cells[i] == cells[j] implies {
        &&& importance[j].below(importance[i]) ==> places[i] < places[j]
        &&& !importance[i].nan() && importance[j].nan() ==> places[i] < places[j]
        &&& i < j && importance[i].scaled() == importance[j].scaled() && !importance[i].nan()
            && !importance[j].nan() ==> places[i] < places[j]
        &&& i < j && importance[i].nan() && importance[j].nan() ==> places[i] < places[j]
    } by {
        crate::laws::numbers::ranks_sort_numbers(importance[i], importance[j]);
        crate::laws::numbers::ranks_sort_numbers(importance[j], importance[i]);
        if i != j {
            positions_are_a_permutation(keys, i, j);
        }
    }
    places
}

proof fn lemma_place_range(keys: Seq<crate::sorting::SortKey>, i: int)
    requires
        0 <= i < keys.len(),
    ensures
        0 <= position(keys, i) < keys.len(),
{
    let ones = |k: int| 1int;
    crate::sorting::lemma_weight_before_within(keys, ones, i);
    lemma_ones(keys.len());
}

proof fn lemma_ones(n: nat)
    ensures
        sum_of(|k: int| 1int, n) == n,
    decreases n,
{
    if n > 0 {
        lemma_ones((n - 1) as nat);
    }
}

/// The chunks of a partition stand one after the other and hold all splats; none is empty, and they
/// are ordered by their cells, each cell having one.
pub proof fn chunks_follow_each_other(
    payload: Seq<F32>,
    chunk_size: F32,
    stride: usize,
    cells: Seq<[i32; 3]>,
    importance: Seq<F32>,
    out: Seq<F32>,
    table: ChunkTable,
    radii: Seq<F32>,
    e: int,
)
    requires
        is_partition(payload, chunk_size, stride, cells, importance, out, table, radii),
        0 <= e < table.entries@.len(),
    ensures
        ({
            let entries = table.entries@;
            let entry = entries[e];
            &&& entry.count >= 1
            &&& e == 0 ==> entry.offset == 0
            &&& e > 0 ==> entry.offset == entries[e - 1].offset + entries[e - 1].count
            &&& e == entries.len() - 1 ==> entry.offset + entry.count == cells.len()
            &&& e > 0 ==> ({
                let (a, b) = (entries[e - 1].grid, entry.grid);
                ||| a[0] < b[0]
                ||| a[0] == b[0] && a[1] < b[1]
                ||| a[0] == b[0] && a[1] == b[1] && a[2] < b[2]
            })
        }),
{
    let entries = table.entries@;
    assert(crate::chunking::describes_cell(entries[e], cells, out, effective_stride(stride)));
    assert(entries[e].offset == crate::chunking::chunk_start(entries, e));
    if e > 0 {
        assert(cell_before(entries[e - 1].grid, entries[e].grid));
    }
    assert(crate::chunking::chunk_start(entries, entries.len() as int) == cells.len());
}

/// The bounds of a chunk enclose the centers of its splats, and no more than they take up.
pub proof fn bounds_enclose_the_splats(
    payload: Seq<F32>,
    chunk_size: F32,
    stride: usize,
    cells: Seq<[i32; 3]>,
    importance: Seq<F32>,
    out: Seq<F32>,
    table: ChunkTable,
    radii: Seq<F32>,
    e: int,
    k: int,
)
    requires
        is_partition(payload, chunk_size, stride, cells, importance, out, table, radii),
        0 <= e < table.entries@.len(),
        0 <= k < 3,
    ensures
        ({
            let width = width_of(stride);
            let entry = table.entries@[e];
            let from = entry.offset as int;
            let to = entry.offset + entry.count;
            &&& forall|p: int|
                from <= p < to && !(#[trigger] out[p * width + k]).nan() ==> entry.aabb_min[k].at_most(
                    out[p * width + k],
                ) && out[p * width + k].at_most(entry.aabb_max[k])
            &&& (exists|p: int| from <= p < to && !(#[trigger] out[p * width + k]).nan()) ==> {
                &&& exists|p: int| from <= p < to && #[trigger] out[p * width + k]
                    == entry.aabb_min[k]
                &&& exists|p: int| from <= p < to && #[trigger] out[p * width + k]
                    == entry.aabb_max[k]
            }
        }),
{
    let width = width_of(stride);
    let entry = table.entries@[e];
    let from = entry.offset as int;
    let to = entry.offset + entry.count;
    assert(entry.aabb_min[k] == lowest(column(out, width, k, from, to)) && entry.aabb_max[k]
        == highest(column(out, width, k, from, to))) by {
        assert(crate::chunking::describes_cell(entry, cells, out, width));
        assert(k == 0 || k == 1 || k == 2);
    }
    lemma_enclosed(out, width, k, from, to, entry.aabb_min[k], entry.aabb_max[k]);
}

proof fn lemma_enclosed(
    out: Seq<F32>,
    width: int,
    k: int,
    from: int,
    to: int,
    low: F32,
    high: F32,
)
    requires
        from <= to,
        low == lowest(column(out, width, k, from, to)),
        high == highest(column(out, width, k, from, to)),
    ensures
        forall|p: int|
            from <= p < to && !(#[trigger] out[p * width + k]).nan() ==> low.at_most(
                out[p * width + k],
            ) && out[p * width + k].at_most(high),
        (exists|p: int| from <= p < to && !(#[trigger] out[p * width + k]).nan()) ==> {
            &&& exists|p: int| from <= p < to && #[trigger] out[p * width + k] == low
            &&& exists|p: int| from <= p < to && #[trigger] out[p * width + k] == high
        },
{
    columns_are_enclosed(out, width, k, from, to);
}

/// The largest radius of a chunk is no smaller than any scale of its splats, the sign taken away,
/// and is one of them wherever there is a number among them.
pub proof fn radii_cover_every_scale(
    payload: Seq<F32>,
    chunk_size: F32,
    stride: usize,
    cells: Seq<[i32; 3]>,
    importance: Seq<F32>,
    out: Seq<F32>,
    table: ChunkTable,
    radii: Seq<F32>,
    e: int,
)
    requires
        is_partition(payload, chunk_size, stride, cells, importance, out, table, radii),
        0 <= e < table.entries@.len(),
    ensures
        radii.len() == table.entries@.len(),
        ({
            let width = width_of(stride);
            let from = table.entries@[e].offset as int;
            let to = from + table.entries@[e].count;
            &&& !radii[e].nan()
            &&& forall|p: int, f: int|
                #![trigger out[p * width + f]]
                from <= p < to && 7 <= f < 10 && !out[p * width + f].nan() ==> out[p * width
                    + f].unsigned().at_most(radii[e])
            &&& (exists|p: int, f: int|
                #![trigger out[p * width + f]]
                from <= p < to && 7 <= f < 10 && !out[p * width + f].nan()) ==> exists|
                p: int,
                f: int,
            |
                #![trigger out[p * width + f]]
                from <= p < to && 7 <= f < 10 && out[p * width + f].unsigned() == radii[e]
        }),
{
    let width = width_of(stride);
    let from = table.entries@[e].offset as int;
    let to = from + table.entries@[e].count;
    assert(radii[e] == largest_radius(out, width, from, to));
    lemma_radius(out, width, from, to);
}

/// What holds of the largest radius of a run of splats.
pub proof fn lemma_radius(out: Seq<F32>, width: int, from: int, to: int)
    requires
        from <= to,
    ensures
        ({
            let radius = largest_radius(out, width, from, to);
            &&& !radius.nan()
            &&& !radius.negative()
            &&& forall|p: int, f: int|
                #![trigger out[p * width + f]]
                from <= p < to && 7 <= f < 10 && !out[p * width + f].nan() ==> out[p * width
                    + f].unsigned().at_most(radius)
            &&& radius.bits != 0 ==> exists|p: int, f: int|
                #![trigger out[p * width + f]]
                from <= p < to && 7 <= f < 10 && out[p * width + f].unsigned() == radius
            &&& (exists|p: int, f: int|
                #![trigger out[p * width + f]]
                from <= p < to && 7 <= f < 10 && !out[p * width + f].nan()) ==> exists|
                p: int,
                f: int,
            |
                #![trigger out[p * width + f]]
                from <= p < to && 7 <= f < 10 && out[p * width + f].unsigned() == radius
        }),
    decreases to - from,
{
    let radius = largest_radius(out, width, from, to);
    if from < to {
        lemma_radius(out, width, from, to - 1);
        let before = largest_radius(out, width, from, to - 1);
        let start = (to - 1) * width;
        let own = splat_radius(out, start);
        let (a, b, c) = (out[start + 7], out[start + 8], out[start + 9]);
        assert(own == a.unsigned() || own == b.unsigned() || own == c.unsigned());
        assert(out[(to - 1) * width + 7] == a && out[(to - 1) * width + 8] == b && out[(to - 1)
            * width + 9] == c);
        assert forall|p: int, f: int|
            #![trigger out[p * width + f]]
            from <= p < to && 7 <= f < 10 && !out[p * width + f].nan() implies out[p * width
            + f].unsigned().at_most(radius) by {
            if p == to - 1 {
                assert(f == 7 || f == 8 || f == 9);
            }
        }
        if radius == before && radius.bits != 0 {
            let (p, f) = choose|p: int, f: int|
                #![trigger out[p * width + f]]
                from <= p < to - 1 && 7 <= f < 10 && out[p * width + f].unsigned() == before;
            assert(out[p * width + f].unsigned() == radius);
        }
    }
    if exists|p: int, f: int|
        #![trigger out[p * width + f]]
        from <= p < to && 7 <= f < 10 && !out[p * width + f].nan() {
        let (p, f) = choose|p: int, f: int|
            #![trigger out[p * width + f]]
            from <= p < to && 7 <= f < 10 && !out[p * width + f].nan();
        if radius.bits == 0 {
            assert(out[p * width + f].unsigned().at_most(radius));
            assert(out[p * width + f].unsigned() == radius);
        }
    }
}

/// The cells have the edge that is asked for unless that is too short, and the grid starts at the
/// lowest coordinates of all splats; without splats, at zero.
pub proof fn grid_starts_at_the_lowest_corner(
    payload: Seq<F32>,
    chunk_size: F32,
    stride: usize,
    cells: Seq<[i32; 3]>,
    importance: Seq<F32>,
    out: Seq<F32>,
    table: ChunkTable,
    radii: Seq<F32>,
    k: int,
)
    requires
        is_partition(payload, chunk_size, stride, cells, importance, out, table, radii),
        0 <= k < 3,
    ensures
        ({
            let width = width_of(stride);
            let shortest = F32 { bits: 0x38d1_b717 };
            &&& shortest.at_most(table.chunk_size)
            &&& shortest.at_most(chunk_size) ==> table.chunk_size == chunk_size
            &&& !shortest.at_most(chunk_size) ==> table.chunk_size == shortest
            &&& cells.len() == 0 ==> table.grid_origin[k].bits == 0
            &&& forall|i: int|
                0 <= i < cells.len() && !(#[trigger] payload[i * width + k]).nan()
                    ==> table.grid_origin[k].at_most(payload[i * width + k])
            &&& (exists|i: int| 0 <= i < cells.len() && !(#[trigger] payload[i * width + k]).nan())
                ==> exists|i: int|
                0 <= i < cells.len() && #[trigger] payload[i * width + k] == table.grid_origin[k]
        }),
{
    columns_are_enclosed(payload, width_of(stride), k, 0, cells.len() as int);
}

/// The splats that a selection takes of a chunk.
pub open spec fn taken(selected: Seq<(u32, u32)>, c: int) -> int
    decreases selected.len(),
{
    if selected.len() == 0 {
        0
    } else if selected.last().0 == c {
        taken(selected.drop_last(), c) + selected.last().1
    } else {
        taken(selected.drop_last(), c)
    }
}

/// Whether a selection names chunks of a table, each at most once, in order, with splats that the
/// chunk has.
pub open spec fn is_selection(selected: Seq<(u32, u32)>, entries: Seq<ChunkEntry>) -> bool {
    &&& forall|a: int, b: int|
        0 <= a < b < selected.len() ==> (#[trigger] selected[a]).0 < (#[trigger] selected[b]).0
    &&& forall|a: int|
        0 <= a < selected.len() ==> (#[trigger] selected[a]).0 < entries.len() && selected[a].1
            <= entries[selected[a].0 as int].count
}

proof fn lemma_nearest_lists(entries: Seq<ChunkEntry>, distances: Seq<F32>, budget: int, n: nat)
    requires
        n <= entries.len() <= u32::MAX,
        distances.len() == entries.len(),
        0 <= budget <= u32::MAX,
    ensures
        ({
            let list = nearest_chunks(entries, distances, budget, n);
            &&& forall|a: int| 0 <= a < list.len() ==> (#[trigger] list[a]).0 < n && list[a].1
                <= entries[list[a].0 as int].count
            &&& forall|a: int, b: int|
                0 <= a < b < list.len() ==> (#[trigger] list[a]).0 < (#[trigger] list[b]).0
            &&& forall|c: int|
                #![trigger taken(list, c)]
                0 <= c < n ==> taken(list, c) == (match share_of(entries, distances, budget, c) {
                    Some(share) => share as int,
                    None => 0,
                })
            &&& forall|c: int| #![trigger taken(list, c)] c >= n ==> taken(list, c) == 0
        }),
    decreases n,
{
    if n > 0 {
        lemma_nearest_lists(entries, distances, budget, (n - 1) as nat);
        let prev = nearest_chunks(entries, distances, budget, (n - 1) as nat);
        let list = nearest_chunks(entries, distances, budget, n);
        crate::sorting::lemma_weight_before_within(
            crate::chunking::distance_keys(distances),
            splats_of(entries),
            n - 1,
        );
        if share_of(entries, distances, budget, n - 1) is Some {
            assert(list.drop_last() =~= prev);
        }
        assert forall|c: int| #![trigger taken(list, c)] 0 <= c < n implies taken(list, c) == (
        match share_of(entries, distances, budget, c) {
            Some(share) => share as int,
            None => 0,
        }) by {
            assert(c == n - 1 ==> taken(prev, c) == 0);
            assert(c < n - 1 ==> taken(prev, c) >= 0);
        }
        assert forall|c: int| #![trigger taken(list, c)] c >= n implies taken(list, c) == 0 by {
            assert(taken(prev, c) == 0);
        }
    }
}

/// The budget goes to the nearest chunks: a chunk is cut short or left out only where every nearer
/// one is shown in full, and one that is left out, or cut short, only where the budget is used up.
pub proof fn nearest_chunks_come_first(
    entries: Seq<ChunkEntry>,
    distances: Seq<F32>,
    budget: int,
    near: int,
    far: int,
)
    requires
        entries.len() <= u32::MAX,
        distances.len() == entries.len(),
        0 <= budget <= u32::MAX,
        0 <= near < entries.len(),
        0 <= far < entries.len(),
        near != far,
        distances[near].below(distances[far]) || !distances[near].nan() && distances[far].nan()
            || near < far && distances[near] == distances[far],
    ensures
        ({
            let list = nearest_chunks(entries, distances, budget, entries.len());
            &&& is_selection(list, entries)
            &&& 0 <= taken(list, near) <= entries[near].count
            &&& taken(list, far) > 0 ==> taken(list, near) == entries[near].count
            &&& crate::gsplat_pack::selection::selected_total(list) <= budget
        }),
{
    let list = nearest_chunks(entries, distances, budget, entries.len());
    let keys = crate::chunking::distance_keys(distances);
    lemma_nearest_lists(entries, distances, budget, entries.len());
    assert(taken(list, near) == taken(list, near) && taken(list, far) == taken(list, far));
    crate::laws::numbers::ranks_sort_numbers(distances[near], distances[far]);
    assert(precedes(keys, near, far));
    crate::sorting::lemma_weight_before_grows(keys, splats_of(entries), near, far);
    crate::sorting::lemma_weight_before_within(keys, splats_of(entries), near);
    crate::sorting::lemma_weight_before_within(keys, splats_of(entries), far);
    crate::chunking::nearest_respects_budget(entries, distances, budget);
}

/// A budget that is spread takes from every chunk in proportion to its size: in full where all
/// splats fit, and else so that no chunk keeps more, nor a whole splat less, than its part.
pub proof fn spread_budget_is_proportional(entries: Seq<ChunkEntry>, budget: int, c: int)
    requires
        entries.len() <= u32::MAX,
        0 <= budget <= u32::MAX,
        0 <= c < entries.len(),
    ensures
        ({
            let list = covered_chunks(entries, budget, entries.len());
            let total = splat_total(entries);
            let share = taken(list, c);
            &&& is_selection(list, entries)
            &&& total <= budget ==> share == entries[c].count
            &&& total > budget ==> share * total <= entries[c].count * budget
            &&& total > budget ==> entries[c].count * budget < (share + 1) * total
        }),
{
    lemma_covered_lists(entries, budget, entries.len());
    let list = covered_chunks(entries, budget, entries.len());
    let total = splat_total(entries);
    let count = entries[c].count as int;
    assert(taken(list, c) == coverage_share(count, total, budget));
    if total > budget {
        let share = count * budget / total;
        vstd::arithmetic::div_mod::lemma_fundamental_div_mod(count * budget, total);
        assert(share * total <= count * budget && count * budget < (share + 1) * total)
            by (nonlinear_arith)
            requires
                count * budget == total * share + (count * budget) % total,
                0 <= (count * budget) % total < total,
        ;
    }
}

proof fn lemma_share_within(entries: Seq<ChunkEntry>, budget: int, c: int)
    requires
        0 <= budget <= u32::MAX,
        0 <= c < entries.len(),
    ensures
        0 <= coverage_share(entries[c].count as int, splat_total(entries), budget)
            <= entries[c].count,
{
    let count = entries[c].count as int;
    let total = splat_total(entries);
    if total > budget {
        let share = count * budget / total;
        assert(0 <= share <= count) by (nonlinear_arith)
            requires
                share == count * budget / total,
                0 <= count,
                0 <= budget < total,
        ;
    }
}

proof fn lemma_covered_lists(entries: Seq<ChunkEntry>, budget: int, n: nat)
    requires
        n <= entries.len() <= u32::MAX,
        0 <= budget <= u32::MAX,
    ensures
        ({
            let list = covered_chunks(entries, budget, n);
            let total = splat_total(entries);
            &&& forall|a: int| 0 <= a < list.len() ==> (#[trigger] list[a]).0 < n && list[a].1
                <= entries[list[a].0 as int].count
            &&& forall|a: int, b: int|
                0 <= a < b < list.len() ==> (#[trigger] list[a]).0 < (#[trigger] list[b]).0
            &&& forall|c: int|
                #![trigger taken(list, c)]
                0 <= c < n ==> taken(list, c) == coverage_share(
                    entries[c].count as int,
                    total,
                    budget,
                )
            &&& forall|c: int| #![trigger taken(list, c)] c >= n ==> taken(list, c) == 0
        }),
    decreases n,
{
    if n > 0 {
        lemma_covered_lists(entries, budget, (n - 1) as nat);
        lemma_share_within(entries, budget, n - 1);
        let prev = covered_chunks(entries, budget, (n - 1) as nat);
        let list = covered_chunks(entries, budget, n);
        let total = splat_total(entries);
        if coverage_share(entries[n - 1].count as int, total, budget) > 0 {
            assert(list.drop_last() =~= prev);
        }
        assert forall|c: int| #![trigger taken(list, c)] 0 <= c < n implies taken(list, c)
            == coverage_share(entries[c].count as int, total, budget) by {
            assert(c == n - 1 ==> taken(prev, c) == 0);
            assert(c < n - 1 ==> taken(prev, c) >= 0);
        }
        assert forall|c: int| #![trigger taken(list, c)] c >= n implies taken(list, c) == 0 by {
            assert(taken(prev, c) == 0);
        }
    }
}

/// The splats of all chunks are those of each added up.
pub proof fn splats_add_up(entries: Seq<ChunkEntry>, entry: ChunkEntry)
    ensures
        splat_total(Seq::empty()) == 0,
        splat_total(entries.push(entry)) == splat_total(entries) + entry.count,
{
    let more = entries.push(entry);
    lemma_sum_agree(splats_of(entries), splats_of(more), entries.len());
}

/// Gathering a selection gives the first splats of each chunk, as many as asked for and there are,
/// one chunk after the other.
pub proof fn gathering_appends_chunks(
    payload: Seq<F32>,
    entries: Seq<ChunkEntry>,
    stride: int,
    active: Seq<(u32, u32)>,
    n: nat,
    f: int,
)
    requires
        n < active.len(),
        stride > 0,
        active[n as int].0 < entries.len(),
        ({
            let entry = entries[active[n as int].0 as int];
            (entry.offset + entry.count) * stride <= payload.len()
        }),
    ensures
        gathered(payload, entries, stride, active, 0).len() == 0,
        ({
            let before = gathered(payload, entries, stride, active, n);
            let after = gathered(payload, entries, stride, active, n + 1);
            let entry = entries[active[n as int].0 as int];
            let count = if active[n as int].1 <= entry.count {
                active[n as int].1
            } else {
                entry.count
            };
            &&& after.len() == before.len() + count * stride
            &&& after.take(before.len() as int) == before
            &&& 0 <= f < count * stride ==> after[before.len() + f] == payload[entry.offset * stride
                + f]
        }),
{
    let entry = entries[active[n as int].0 as int];
    let before = gathered(payload, entries, stride, active, n);
    let after = gathered(payload, entries, stride, active, n + 1);
    let count = least(active[n as int].1 as int, entry.count as int);
    assert((entry.offset + count) * stride <= (entry.offset + entry.count) * stride && (entry.offset
        + count) * stride == entry.offset * stride + count * stride && 0 <= entry.offset * stride
        && 0 <= count * stride) by (nonlinear_arith)
        requires
            0 <= count <= entry.count,
            0 <= entry.offset,
            stride > 0,
    ;
    assert(after.take(before.len() as int) =~= before);
}

/// A selected chunk that is not there, or reaches past the payload, adds nothing.
pub proof fn missing_chunks_add_nothing(
    payload: Seq<F32>,
    entries: Seq<ChunkEntry>,
    stride: int,
    item: (u32, u32),
)
    requires
        item.0 >= entries.len() || (entries[item.0 as int].offset + least(
            item.1 as int,
            entries[item.0 as int].count as int,
        )) * stride > payload.len(),
    ensures
        chunk_prefix(payload, entries, stride, item).len() == 0,
{
}

/// The bounds of all chunks enclose the bounds of each.
pub proof fn table_bounds_enclose_every_chunk(entries: Seq<ChunkEntry>, e: int, k: int)
    requires
        0 <= e < entries.len(),
        0 <= k < 3,
        !entries[e].aabb_min[k].nan(),
        !entries[e].aabb_max[k].nan(),
    ensures
        entries[e].aabb_min[0].finite() && (forall|i: int|
            0 <= i < entries.len() ==> (#[trigger] entries[i]).aabb_min[0].finite())
            ==> union_bounds(entries) is Some,
        union_bounds(entries) matches Some(bounds) ==> {
            &&& bounds.0[k].at_most(entries[e].aabb_min[k])
            &&& entries[e].aabb_max[k].at_most(bounds.1[k])
            &&& bounds.0[k].bits == 0x7f80_0000 || exists|i: int|
                0 <= i < entries.len() && (#[trigger] entries[i]).aabb_min[k] == bounds.0[k]
            &&& bounds.1[k].bits == 0xff80_0000 || exists|i: int|
                0 <= i < entries.len() && (#[trigger] entries[i]).aabb_max[k] == bounds.1[k]
        },
        union_bounds(Seq::<ChunkEntry>::empty()) is None,
{
    lemma_axis_enclosed(entries, e, k);
    lemma_bounds_exist(entries, e);
    assert(k == 0 || k == 1 || k == 2);
    let none = crate::chunking::lower_bounds(Seq::<ChunkEntry>::empty(), 0, 0);
    extremes_enclose_and_are_attained(none);
}

proof fn lemma_axis_enclosed(entries: Seq<ChunkEntry>, e: int, k: int)
    requires
        0 <= e < entries.len(),
        0 <= k < 3,
        !entries[e].aabb_min[k].nan(),
        !entries[e].aabb_max[k].nan(),
    ensures
        ({
            let low = lowest(crate::chunking::lower_bounds(entries, k, entries.len()));
            let high = highest(crate::chunking::upper_bounds(entries, k, entries.len()));
            &&& low.at_most(entries[e].aabb_min[k])
            &&& entries[e].aabb_max[k].at_most(high)
            &&& low.bits == 0x7f80_0000 || exists|i: int|
                0 <= i < entries.len() && (#[trigger] entries[i]).aabb_min[k] == low
            &&& high.bits == 0xff80_0000 || exists|i: int|
                0 <= i < entries.len() && (#[trigger] entries[i]).aabb_max[k] == high
        }),
{
    let n = entries.len();
    let lows = crate::chunking::lower_bounds(entries, k, n);
    let highs = crate::chunking::upper_bounds(entries, k, n);
    extremes_enclose_and_are_attained(lows);
    extremes_enclose_and_are_attained(highs);
    assert(lows[e] == entries[e].aabb_min[k] && highs[e] == entries[e].aabb_max[k]);
    if crate::laws::numbers::is_among(lowest(lows), lows) {
        let i = choose|i: int| 0 <= i < n && #[trigger] lows[i] == lowest(lows);
        assert(entries[i].aabb_min[k] == lowest(lows));
    }
    if crate::laws::numbers::is_among(highest(highs), highs) {
        let i = choose|i: int| 0 <= i < n && #[trigger] highs[i] == highest(highs);
        assert(entries[i].aabb_max[k] == highest(highs));
    }
}

proof fn lemma_bounds_exist(entries: Seq<ChunkEntry>, e: int)
    requires
        0 <= e < entries.len(),
    ensures
        (forall|i: int| 0 <= i < entries.len() ==> (#[trigger] entries[i]).aabb_min[0].finite())
            ==> lowest(crate::chunking::lower_bounds(entries, 0, entries.len())).finite(),
{
    let first = crate::chunking::lower_bounds(entries, 0, entries.len());
    extremes_enclose_and_are_attained(first);
    if forall|i: int| 0 <= i < entries.len() ==> (#[trigger] entries[i]).aabb_min[0].finite() {
        assert(first[e] == entries[e].aabb_min[0]);
        if crate::laws::numbers::is_among(lowest(first), first) {
            let i = choose|i: int| 0 <= i < entries.len() && #[trigger] first[i] == lowest(first);
            assert(entries[i].aabb_min[0].finite());
        }
    }
}

} // verus!
