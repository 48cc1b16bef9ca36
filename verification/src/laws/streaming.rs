//! Streaming: what is chosen is gathered, record by record, and no choice is missed.

use crate::chunking::{covered_chunks, nearest_chunks, ChunkTable};
use crate::cloud_settings::{ChunkSelection, GaussianSplatCloudSettings};
use crate::floats::F32;
use crate::gsplat_pack::layout::least;
use crate::gsplat_pack::selection::{selected_total, ChunkView, ViewLimits};
use crate::gsplat_pack::{PackChunk, PackPage};
use crate::node::chunk_streaming::{
    active_takes, after_report, after_request, budget_of, chunk_takes, floor_of, is_choice,
    item_takes, joined, page_piece, selectable, selection_changed, streamed_with, take_total, used,
    without, ChunkRuntime, PageCacheState, PageTake, SelectionReading, WorkerReport,
};
use crate::node::gpu_sort::held_handles;
use crate::node::render_build::{draw_seq, held, DrawSlots, RawRenderData, SplatDraw};
use crate::node::render_state::{
    nothing_is_lost, render_params, MaterialValue, Released, SplatRenderBackend,
};
use vstd::multiset::Multiset;
use vstd::prelude::*;
use vstd::string::*;

verus! {

proof fn lemma_without_place(order: Seq<u32>, page: u32, i: int)
    requires
        order.no_duplicates(),
    ensures
        0 <= i < order.len() && order[i] == page ==> without(order, page) == order.remove(i),
        !order.contains(page) ==> without(order, page) == order,
    decreases order.len(),
{
    reveal(Seq::filter);
    if order.len() > 0 {
        let rest = order.drop_last();
        assert(rest.no_duplicates());
        lemma_without_place(rest, page, i);
        if !order.contains(page) {
            assert(!rest.contains(page)) by {
                if rest.contains(page) {
                    let k = choose|k: int| 0 <= k < rest.len() && rest[k] == page;
                    assert(order[k] == page);
                }
            }
            assert(order.last() != page);
            assert(rest.push(order.last()) =~= order);
        } else if 0 <= i < order.len() && order[i] == page {
            if i == rest.len() {
                assert(!rest.contains(page)) by {
                    if rest.contains(page) {
                        let k = choose|k: int| 0 <= k < rest.len() && rest[k] == page;
                        assert(order[k] == order[i]);
                    }
                }
                assert(order.remove(i) =~= rest);
            } else {
                assert(order.last() != order[i]);
                assert(rest.remove(i).push(order.last()) =~= order.remove(i));
            }
        }
    } else {
        assert(without(order, page) =~= order);
    }
}

/// Using a page moves it to the end of the order and leaves the others as they were; a page that
/// is new goes behind all others.
pub proof fn used_pages_move_to_the_end(order: Seq<u32>, page: u32, i: int)
    requires
        order.no_duplicates(),
    ensures
        !order.contains(page) ==> used(order, page) == order.push(page),
        0 <= i < order.len() && order[i] == page ==> used(order, page) == order.remove(i).push(
            page,
        ),
{
    lemma_without_place(order, page, i);
}

/// The records in the pages of a chunk, from its page `offset` on, as far as the table reaches.
pub open spec fn records_left(
    pages: Seq<PackPage>,
    first_page: int,
    page_count: int,
    offset: int,
) -> int
    decreases page_count - offset,
{
    if offset >= page_count || first_page + offset >= pages.len() {
        0
    } else {
        pages[first_page + offset].count + records_left(pages, first_page, page_count, offset + 1)
    }
}

/// Taking from the pages of a chunk goes page by page, without leaving one out; every page but the
/// last is taken in full; and as many records are taken as asked for, if there are as many.
pub proof fn takes_go_page_by_page(
    pages: Seq<PackPage>,
    first_page: int,
    page_count: int,
    offset: int,
    remaining: int,
)
    requires
        0 <= first_page,
        0 <= offset,
        pages.len() <= u32::MAX,
        remaining <= u32::MAX,
    ensures
        ({
            let takes = chunk_takes(pages, first_page, page_count, offset, remaining);
            &&& forall|i: int|
                0 <= i < takes.len() ==> (#[trigger] takes[i]).page_index == first_page + offset + i
                    && takes[i].page_index < first_page + page_count && takes[i].page_index
                    < pages.len() && takes[i].count <= pages[takes[i].page_index as int].count
            &&& forall|i: int|
                0 <= i < takes.len() - 1 ==> (#[trigger] takes[i]).count
                    == pages[takes[i].page_index as int].count
            &&& take_total(takes) <= if remaining > 0 {
                remaining
            } else {
                0
            }
            &&& remaining > 0 ==> take_total(takes) == least(
                remaining,
                records_left(pages, first_page, page_count, offset),
            )
        }),
        0 <= records_left(pages, first_page, page_count, offset),
    decreases page_count - offset,
{
    let takes = chunk_takes(pages, first_page, page_count, offset, remaining);
    if offset < page_count {
        lemma_records_left_bounds(pages, first_page, page_count, offset);
    }
    if offset < page_count && remaining > 0 {
        let at = first_page + offset;
        if at < pages.len() {
            let count = least(remaining, pages[at].count as int);
            takes_go_page_by_page(pages, first_page, page_count, offset + 1, remaining - count);
            let rest = chunk_takes(pages, first_page, page_count, offset + 1, remaining - count);
            let first = PageTake { page_index: at as u32, count: count as u32 };
            assert(takes == seq![first] + rest);
            assert(takes.drop_first() =~= rest);
            assert forall|i: int| 0 <= i < takes.len() implies (#[trigger] takes[i]).page_index
                == first_page + offset + i && takes[i].page_index < first_page + page_count
                && takes[i].page_index < pages.len() && takes[i].count
                <= pages[takes[i].page_index as int].count by {
                if i > 0 {
                    assert(takes[i] == rest[i - 1]);
                }
            }
            assert forall|i: int| 0 <= i < takes.len() - 1 implies (#[trigger] takes[i]).count
                == pages[takes[i].page_index as int].count by {
                if i > 0 {
                    assert(takes[i] == rest[i - 1]);
                } else if remaining == count {
                    assert(rest.len() == 0);
                }
            }
        } else {
            lemma_no_takes(pages, first_page, page_count, offset, remaining);
        }
    }
}

proof fn lemma_records_left_bounds(
    pages: Seq<PackPage>,
    first_page: int,
    page_count: int,
    offset: int,
)
    ensures
        0 <= records_left(pages, first_page, page_count, offset),
    decreases page_count - offset,
{
    if offset < page_count && first_page + offset < pages.len() {
        lemma_records_left_bounds(pages, first_page, page_count, offset + 1);
    }
}

proof fn lemma_no_takes(
    pages: Seq<PackPage>,
    first_page: int,
    page_count: int,
    offset: int,
    remaining: int,
)
    requires
        first_page + offset >= pages.len(),
    ensures
        chunk_takes(pages, first_page, page_count, offset, remaining).len() == 0,
    decreases page_count - offset,
{
    if offset < page_count && remaining > 0 {
        lemma_no_takes(pages, first_page, page_count, offset + 1, remaining);
    }
}

/// An item of a selection is gathered from the first pages of its chunk, and no more than the item
/// asks for and the chunk has; an item without a chunk takes nothing.
pub proof fn items_take_from_their_chunk(
    chunks: Seq<PackChunk>,
    pages: Seq<PackPage>,
    item: (u32, u32),
    i: int,
)
    requires
        pages.len() <= u32::MAX,
    ensures
        ({
            let takes = item_takes(chunks, pages, item);
            &&& item.0 >= chunks.len() ==> takes.len() == 0
            &&& item.0 < chunks.len() ==> {
                let chunk = chunks[item.0 as int];
                &&& take_total(takes) <= item.1
                &&& take_total(takes) <= chunk.entry.count
                &&& 0 <= i < takes.len() ==> takes[i].page_index == chunk.first_page + i && i
                    < chunk.page_count
                &&& item.1 > 0 && chunk.entry.count > 0 && item.1 <= records_left(
                    pages,
                    chunk.first_page as int,
                    chunk.page_count as int,
                    0,
                ) && item.1 <= chunk.entry.count ==> take_total(takes) == item.1
            }
        }),
{
    if item.0 < chunks.len() {
        let chunk = chunks[item.0 as int];
        takes_go_page_by_page(
            pages,
            chunk.first_page as int,
            chunk.page_count as int,
            0,
            least(item.1 as int, chunk.entry.count as int),
        );
    }
}

/// The items of a selection are gathered one after the other.
pub proof fn items_are_taken_in_order(
    chunks: Seq<PackChunk>,
    pages: Seq<PackPage>,
    a: Seq<(u32, u32)>,
    b: Seq<(u32, u32)>,
    item: (u32, u32),
)
    ensures
        active_takes(chunks, pages, seq![item], 1) == item_takes(chunks, pages, item),
        active_takes(chunks, pages, a + b, (a + b).len()) == active_takes(
            chunks,
            pages,
            a,
            a.len(),
        ) + active_takes(chunks, pages, b, b.len()),
{
    reveal_with_fuel(active_takes, 2);
    lemma_active_prefix(chunks, pages, a, b, a.len());
    lemma_active_joined(chunks, pages, a, b, b.len());
}

proof fn lemma_active_prefix(
    chunks: Seq<PackChunk>,
    pages: Seq<PackPage>,
    a: Seq<(u32, u32)>,
    b: Seq<(u32, u32)>,
    n: nat,
)
    requires
        n <= a.len(),
    ensures
        active_takes(chunks, pages, a + b, n) == active_takes(chunks, pages, a, n),
    decreases n,
{
    if n > 0 {
        lemma_active_prefix(chunks, pages, a, b, (n - 1) as nat);
        assert((a + b)[n - 1] == a[n - 1]);
    }
}

proof fn lemma_active_joined(
    chunks: Seq<PackChunk>,
    pages: Seq<PackPage>,
    a: Seq<(u32, u32)>,
    b: Seq<(u32, u32)>,
    n: nat,
)
    requires
        n <= b.len(),
    ensures
        active_takes(chunks, pages, a + b, a.len() + n) == active_takes(chunks, pages, a, a.len())
            + active_takes(chunks, pages, b, n),
    decreases n,
{
    if n > 0 {
        lemma_active_joined(chunks, pages, a, b, (n - 1) as nat);
        assert((a + b)[a.len() + n - 1] == b[n - 1]);
        let before = active_takes(chunks, pages, a, a.len());
        let rest = active_takes(chunks, pages, b, (n - 1) as nat);
        let last = item_takes(chunks, pages, b[n - 1]);
        assert((before + rest) + last =~= before + (rest + last));
    } else {
        lemma_active_prefix(chunks, pages, a, b, a.len());
        assert(active_takes(chunks, pages, a, a.len()) + Seq::<PageTake>::empty() =~= active_takes(
            chunks,
            pages,
            a,
            a.len(),
        ));
    }
}

/// The records that the first `n` takes add up to.
pub open spec fn records_taken(takes: Seq<PageTake>, n: nat) -> int
    decreases n,
{
    if n == 0 {
        0
    } else {
        records_taken(takes, (n - 1) as nat) + takes[n - 1].count
    }
}

/// What is gathered holds the records of the pages that were handed over, in the order in which
/// they were taken, and nothing else.
pub proof fn gathered_records_are_those_of_the_pages<T>(
    takes: Seq<PageTake>,
    handed: Seq<Seq<T>>,
    unit: int,
    n: nat,
    t: int,
    v: int,
)
    requires
        unit >= 0,
        n <= takes.len() == handed.len(),
        forall|i: int| 0 <= i < n ==> (#[trigger] takes[i]).count * unit <= handed[i].len(),
        0 <= t < n,
        0 <= v < takes[t].count * unit,
    ensures
        joined(takes, handed, unit, n).len() == records_taken(takes, n) * unit,
        0 <= records_taken(takes, t as nat) * unit + v < joined(takes, handed, unit, n).len(),
        joined(takes, handed, unit, n)[records_taken(takes, t as nat) * unit + v] == handed[t][v],
    decreases n,
{
    lemma_joined_len(takes, handed, unit, n);
    let m = (n - 1) as nat;
    lemma_joined_len(takes, handed, unit, m);
    assert(takes[m as int].count * unit <= handed[m as int].len());
    if t < m {
        gathered_records_are_those_of_the_pages(takes, handed, unit, m, t, v);
    } else {
        assert(records_taken(takes, m) * unit >= 0) by (nonlinear_arith)
            requires
                records_taken(takes, m) >= 0,
                unit >= 0,
        ;
    }
}

proof fn lemma_joined_len<T>(takes: Seq<PageTake>, handed: Seq<Seq<T>>, unit: int, n: nat)
    requires
        unit >= 0,
        n <= takes.len() == handed.len(),
        forall|i: int| 0 <= i < n ==> (#[trigger] takes[i]).count * unit <= handed[i].len(),
    ensures
        joined(takes, handed, unit, n).len() == records_taken(takes, n) * unit,
        records_taken(takes, n) >= 0,
    decreases n,
{
    if n > 0 {
        let m = (n - 1) as nat;
        lemma_joined_len(takes, handed, unit, m);
        let count = takes[m as int].count as int;
        assert(count * unit <= handed[m as int].len());
        assert(count * unit >= 0) by (nonlinear_arith)
            requires
                count >= 0,
                unit >= 0,
        ;
        assert((records_taken(takes, m) + count) * unit == records_taken(takes, m) * unit + count
            * unit) by (nonlinear_arith);
    } else {
        assert(0 * unit == 0) by (nonlinear_arith);
    }
}

/// A page that does not hold all that is taken from it adds nothing.
pub proof fn short_pages_add_nothing<T>(values: Seq<T>, count: int, unit: int)
    ensures
        values.len() < count * unit ==> page_piece(values, count, unit).len() == 0,
{
}

/// A selection is made anew whenever something that it depends on has changed, and it waits for
/// the rebuild in flight, for the camera where that counts, and for its direction where that
/// counts.
pub proof fn selections_follow_the_viewer(
    runtime: ChunkRuntime,
    selection: ChunkSelection,
    reading: SelectionReading,
)
    ensures
        runtime.pending ==> !selectable(runtime, selection, reading),
        selection == ChunkSelection::Nearest ==> (selectable(runtime, selection, reading)
            <==> !runtime.pending && reading.camera is Some),
        selection == ChunkSelection::Coverage ==> (selectable(runtime, selection, reading)
            <==> !runtime.pending),
        selection == ChunkSelection::ViewPriority ==> (selectable(runtime, selection, reading)
            <==> !runtime.pending && reading.camera is Some && reading.forward is Some),
        reading.budget != runtime.last_budget ==> selection_changed(runtime, selection, reading),
        runtime.last_select_pos is None ==> selection_changed(runtime, selection, reading),
        selection == ChunkSelection::Nearest && runtime.last_select_pos is Some && reading.budget
            == runtime.last_budget ==> (selection_changed(runtime, selection, reading)
            <==> reading.moved),
        selection == ChunkSelection::Coverage && runtime.last_select_pos is Some && reading.budget
            == runtime.last_budget ==> !selection_changed(runtime, selection, reading),
        selection == ChunkSelection::ViewPriority && (reading.moved || reading.rotated
            || reading.cone_changed || runtime.last_select_forward is None || reading.min_lod
            != runtime.last_view_priority_min_lod_per_chunk) ==> selection_changed(
            runtime,
            selection,
            reading,
        ),
{
}

/// A worker that delivers has its render set applied, and one that does not has nothing applied.
pub proof fn deliveries_are_applied(pending: bool, queued: bool, report: WorkerReport)
    ensures
        after_report(pending, queued, report).2.apply <==> pending && report
            == WorkerReport::Delivered,
        after_report(pending, queued, report).2.start <==> pending && queued && report
            != WorkerReport::Busy,
        pending && report != WorkerReport::Busy ==> after_report(pending, queued, report).0
            == queued && !after_report(pending, queued, report).1,
        report == WorkerReport::Busy || !pending ==> after_report(pending, queued, report).0
            == pending && after_report(pending, queued, report).1 == queued,
        after_request(pending, queued).0,
        after_request(pending, queued).2 <==> !pending,
        pending ==> after_request(pending, queued).1,
        !pending ==> after_request(pending, queued).1 == queued,
{
}

/// The settings of streaming are those of the cloud; a budget or a target is not negative, and a
/// chunk is shown with one splat at least.
pub proof fn streaming_follows_the_settings(settings: GaussianSplatCloudSettings)
    ensures
        ({
            let s = streamed_with(Some(settings));
            &&& s.selection == settings.chunk_selection
            &&& s.fov_degrees == settings.view_priority_fov_degrees
            &&& s.full_distance == settings.view_priority_full_distance
            &&& settings.max_preview_splats >= 0 ==> s.budget == settings.max_preview_splats
            &&& settings.max_preview_splats < 0 ==> s.budget == 0
            &&& settings.view_priority_target_budget >= 0 ==> s.target
                == settings.view_priority_target_budget
            &&& settings.view_priority_target_budget < 0 ==> s.target == 0
            &&& settings.view_priority_min_lod_per_chunk >= 1 ==> s.min_lod
                == settings.view_priority_min_lod_per_chunk
            &&& settings.view_priority_min_lod_per_chunk < 1 ==> s.min_lod == 1
        }),
{
}

/// A budget limits a selection as it says; none at all does not limit it.
pub proof fn budgets_limit_as_they_say(budget: i32, min_lod: i32)
    ensures
        budget > 0 ==> budget_of(budget) == budget,
        budget <= 0 ==> budget_of(budget) == 0xffff_ffff,
        min_lod >= 1 ==> floor_of(min_lod) == min_lod,
        min_lod < 1 ==> floor_of(min_lod) == 1,
{
}

/// A choice by view stays within the budget and within the target; without a target, or without
/// any reach, nothing is chosen.
pub proof fn view_choices_stay_within_the_target(
    table: ChunkTable,
    distances: Seq<F32>,
    views: Seq<ChunkView>,
    limits: ViewLimits,
    budget: i32,
    target: i32,
    min_lod: i32,
    selected: Seq<(u32, u32)>,
)
    requires
        table.entries@.len() <= u32::MAX,
        is_choice(
            ChunkSelection::ViewPriority,
            table,
            distances,
            views,
            limits,
            budget,
            target,
            min_lod,
            selected,
        ),
    ensures
        target > 0 ==> selected_total(selected) <= target,
        budget > 0 ==> selected_total(selected) <= budget,
        target <= 0 ==> selected.len() == 0,
        limits.full_distance.at_most(F32 { bits: 0 }) ==> selected.len() == 0,
{
    let limit = budget_of(budget) as int;
    let target_limit = least(
        limit,
        crate::cloud_settings::at_least(target, 0) as int,
    );
    let all = crate::view_selection::chunks_in_view(
        table.entries@,
        views,
        limits,
        floor_of(min_lod),
        table.entries@.len(),
    );
    if !(target_limit == 0 || limits.full_distance.at_most(F32 { bits: 0 })) {
        let order = choose|order: Seq<usize>| #[trigger]
            crate::sorting::is_order(crate::view_selection::view_keys(all), order) && selected
                == crate::view_selection::shown_chunks(all, order, target_limit, all.len());
        crate::view_selection::lemma_chunks_in_view(
            table.entries@,
            views,
            limits,
            floor_of(min_lod),
            table.entries@.len(),
        );
        crate::view_selection::view_respects_budget(all, order, target_limit);
    }
}

/// The shader is told each number of a render set under its name, and starts without an order.
pub proof fn shaders_are_told_the_render_set(render: RawRenderData, depth_mode: i32)
    ensures
        ({
            let params = render_params(render, depth_mode);
            &&& params.len() == 13
            &&& params.contains(("splat_count"@, MaterialValue::Int(render.splat_count)))
            &&& params.contains(("sh_degree"@, MaterialValue::Int(render.sh_degree)))
            &&& params.contains(("data_encoding"@, MaterialValue::Int(render.data_encoding)))
            &&& params.contains(
                ("packed_record_bytes"@, MaterialValue::Int(render.packed_record_bytes)),
            )
            &&& params.contains(
                ("position_min"@, MaterialValue::Vector(render.ranges.position_min)),
            )
            &&& params.contains(
                ("position_max"@, MaterialValue::Vector(render.ranges.position_max)),
            )
            &&& params.contains(("scale_min"@, MaterialValue::Vector(render.ranges.scale_min)))
            &&& params.contains(("scale_max"@, MaterialValue::Vector(render.ranges.scale_max)))
            &&& params.contains(("sh_min"@, MaterialValue::Float(render.ranges.sh_min)))
            &&& params.contains(("sh_max"@, MaterialValue::Float(render.ranges.sh_max)))
            &&& params.contains(("sort_enabled"@, MaterialValue::Int(0)))
            &&& params.contains(("sort_per_eye"@, MaterialValue::Int(0)))
            &&& params.contains(("splat_depth_mode"@, MaterialValue::Int(depth_mode)))
        }),
{
    let params = render_params(render, depth_mode);
    assert(params[0] == ("splat_count"@, MaterialValue::Int(render.splat_count)));
    assert(params[1] == ("sh_degree"@, MaterialValue::Int(render.sh_degree)));
    assert(params[2] == ("data_encoding"@, MaterialValue::Int(render.data_encoding)));
    assert(params[3] == ("packed_record_bytes"@, MaterialValue::Int(render.packed_record_bytes)));
    assert(params[4] == ("position_min"@, MaterialValue::Vector(render.ranges.position_min)));
    assert(params[5] == ("position_max"@, MaterialValue::Vector(render.ranges.position_max)));
    assert(params[6] == ("scale_min"@, MaterialValue::Vector(render.ranges.scale_min)));
    assert(params[7] == ("scale_max"@, MaterialValue::Vector(render.ranges.scale_max)));
    assert(params[8] == ("sh_min"@, MaterialValue::Float(render.ranges.sh_min)));
    assert(params[9] == ("sh_max"@, MaterialValue::Float(render.ranges.sh_max)));
    assert(params[10] == ("sort_enabled"@, MaterialValue::Int(0)));
    assert(params[11] == ("sort_per_eye"@, MaterialValue::Int(0)));
    assert(params[12] == ("splat_depth_mode"@, MaterialValue::Int(depth_mode)));
}

/// A choice of the nearest chunks is the one that the distances give, and one of all chunks is the
/// one that spreads the budget; neither looks at the target.
pub proof fn choices_are_made_by_name(
    selection: ChunkSelection,
    table: ChunkTable,
    distances: Seq<F32>,
    views: Seq<ChunkView>,
    limits: ViewLimits,
    budget: i32,
    target: i32,
    min_lod: i32,
    selected: Seq<(u32, u32)>,
)
    requires
        is_choice(
            selection,
            table,
            distances,
            views,
            limits,
            budget,
            target,
            min_lod,
            selected,
        ),
        budget > 0,
    ensures
        selection == ChunkSelection::Nearest ==> selected == nearest_chunks(
            table.entries@,
            distances,
            budget as int,
            table.entries@.len(),
        ),
        selection == ChunkSelection::Coverage ==> selected == covered_chunks(
            table.entries@,
            budget as int,
            table.entries@.len(),
        ),
{
}

/// A cache is in order where every page that it holds stands in its order once, and there are not
/// more than sixty-four.
pub proof fn caches_hold_so_many_pages<T>(cache: PageCacheState<T>)
    ensures
        cache.well_formed() ==> cache.order().len() <= 64,
        cache.order().len() <= 64 && cache.order().no_duplicates() && cache.order().to_set()
            == cache.pages().dom() ==> cache.well_formed(),
{
}

/// Where nothing is lost, every draw and every handle that was held or came in is held or was given
/// up, each as often as before.
pub proof fn everything_is_held_or_given_up(
    before: SplatRenderBackend,
    after: SplatRenderBackend,
    released: Released,
    added: Multiset<SplatDraw>,
    draw: SplatDraw,
    handle: u64,
)
    requires
        nothing_is_lost(before, after, released, added),
    ensures
        held(after.draws).count(draw) + released.draws@.to_multiset().count(draw) == held(
            before.draws,
        ).count(draw) + added.count(draw),
        held_handles(after.sorts).to_multiset().count(handle)
            + released.handles@.to_multiset().count(handle) == held_handles(
            before.sorts,
        ).to_multiset().count(handle),
{
    let draws = held(after.draws).add(released.draws@.to_multiset());
    assert(draws.count(draw) == held(after.draws).count(draw)
        + released.draws@.to_multiset().count(draw));
    let handles = held_handles(after.sorts).to_multiset().add(released.handles@.to_multiset());
    assert(handles.count(handle) == held_handles(after.sorts).to_multiset().count(handle)
        + released.handles@.to_multiset().count(handle));
}

/// A draw is held as often as it is the current one or the one that stands in for it.
pub proof fn held_draws_are_in_their_slots(slots: DrawSlots, draw: SplatDraw)
    ensures
        held(slots).count(draw) == (if slots.current == Some(draw) {
            1nat
        } else {
            0
        }) + (if slots.transition == Some(draw) {
            1nat
        } else {
            0
        }),
{
    broadcast use vstd::seq_lib::group_to_multiset_ensures;

    lemma_slot_draw(slots.current, draw);
    lemma_slot_draw(slots.transition, draw);
}

proof fn lemma_slot_draw(slot: Option<SplatDraw>, draw: SplatDraw)
    ensures
        draw_seq(slot).to_multiset().count(draw) == (if slot == Some(draw) {
            1nat
        } else {
            0
        }),
{
    broadcast use vstd::seq_lib::group_to_multiset_ensures;

    match slot {
        Some(held) => {
            assert(draw_seq(slot) =~= Seq::empty().push(held));
            assert(Seq::<SplatDraw>::empty().to_multiset() =~= Multiset::empty());
        },
        None => {
            assert(draw_seq(slot) =~= Seq::empty());
            assert(Seq::<SplatDraw>::empty().to_multiset() =~= Multiset::empty());
        },
    }
}

} // verus!
