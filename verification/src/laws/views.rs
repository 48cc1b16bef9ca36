//! What is shown of a cloud from where the viewer stands.

use crate::chunking::ChunkEntry;
use crate::floats::F32;
use crate::gsplat_pack::selection::{
    base_total, best_upgrade, candidates, from_chunk, granted, granted_list, in_view, is_best_lod,
    leading_lods, lemma_best_upgrade, lemma_candidates_nonempty, lemma_selected_total,
    lemma_smallest_count, lemma_totals_within_budget, priority_keys, selected_total, smallest_count,
    upgraded_total, usable_counts, usable_lods, ChunkView, LodCandidate, ViewLimits,
};
use crate::gsplat_pack::{PackChunk, PackNodeLod};
use crate::laws::numbers::ranks_sort_numbers;
use crate::sorting::{
    is_order, lemma_position_in_order, position, positions_are_a_permutation, precedes,
};
use crate::view_selection::{
    are_candidates, chunks_in_view, kept_total, lemma_rounds_within_budget, lemma_shown_total,
    raised_total, share_of_candidate, shown_chunks, view_keys, ViewCandidate,
};
use vstd::prelude::*;

verus! {

/// What is in view is no farther than the viewer sees, and no farther off the viewing direction
/// than half the field of view, unless that goes all around.
pub proof fn view_is_near_and_ahead(limits: ViewLimits, view: ChunkView)
    requires
        !limits.full_distance.nan(),
        !limits.cos_half_fov.nan(),
        !limits.fov_degrees.nan(),
        !view.distance.nan(),
        !view.center_dot.nan(),
    ensures
        in_view(limits, view) <==> view.distance.at_most(limits.full_distance) && (
        limits.cos_half_fov.at_most(view.center_dot) || (F32 { bits: 0x43b3_ffdf }).at_most(
            limits.fov_degrees,
        )),
{
    crate::laws::numbers::within_stays_in_range(
        limits.fov_degrees,
        F32 { bits: 0x3f80_0000 },
        F32 { bits: 0x43b4_0000 },
    );
}

/// Whether a chunk of a table is in view and has splats.
pub open spec fn is_seen(
    entries: Seq<ChunkEntry>,
    views: Seq<ChunkView>,
    limits: ViewLimits,
    c: int,
) -> bool {
    0 <= c < entries.len() && in_view(limits, views[c]) && entries[c].count > 0
}

/// The fewest splats that a chunk is shown with: `min_lod`, but at least one, and not more than it
/// has.
pub open spec fn fewest_of(entries: Seq<ChunkEntry>, min_lod: u32, c: int) -> int {
    let wanted: int = if min_lod < 1 {
        1
    } else {
        min_lod as int
    };
    if wanted < entries[c].count {
        wanted
    } else {
        entries[c].count as int
    }
}

proof fn lemma_seen(
    entries: Seq<ChunkEntry>,
    views: Seq<ChunkView>,
    limits: ViewLimits,
    min_lod: u32,
    n: nat,
)
    requires
        n <= entries.len() <= u32::MAX,
    ensures
        ({
            let all = chunks_in_view(entries, views, limits, min_lod, n);
            &&& all.len() <= n
            &&& forall|i: int|
                0 <= i < all.len() ==> (#[trigger] all[i]).chunk < n && is_seen(
                    entries,
                    views,
                    limits,
                    all[i].chunk as int,
                ) && all[i].most == entries[all[i].chunk as int].count && all[i].fewest
                    == fewest_of(entries, min_lod, all[i].chunk as int) && all[i].priority
                    == views[all[i].chunk as int].priority
            &&& forall|i: int, j: int|
                0 <= i < j < all.len() ==> (#[trigger] all[i]).chunk < (#[trigger] all[j]).chunk
            &&& forall|c: int|
                0 <= c < n && #[trigger] is_seen(entries, views, limits, c) ==> exists|i: int|
                    0 <= i < all.len() && (#[trigger] all[i]).chunk == c
        }),
    decreases n,
{
    if n > 0 {
        let m = (n - 1) as nat;
        lemma_seen(entries, views, limits, min_lod, m);
        let prev = chunks_in_view(entries, views, limits, min_lod, m);
        let all = chunks_in_view(entries, views, limits, min_lod, n);
        assert forall|c: int|
            0 <= c < n && #[trigger] is_seen(entries, views, limits, c) implies exists|i: int|
            0 <= i < all.len() && (#[trigger] all[i]).chunk == c by {
            if c < m {
                let i = choose|i: int| 0 <= i < prev.len() && (#[trigger] prev[i]).chunk == c;
                assert(all[i].chunk == c);
            } else {
                assert(all[all.len() - 1].chunk == c);
            }
        }
    }
}

/// Every chunk that is in view and has splats is a candidate, once, in the order of the table, and
/// nothing else is.
pub proof fn candidates_are_what_is_seen(
    entries: Seq<ChunkEntry>,
    views: Seq<ChunkView>,
    limits: ViewLimits,
    min_lod: u32,
)
    requires
        entries.len() <= u32::MAX,
    ensures
        ({
            let all = chunks_in_view(entries, views, limits, min_lod, entries.len());
            &&& forall|i: int|
                0 <= i < all.len() ==> is_seen(
                    entries,
                    views,
                    limits,
                    (#[trigger] all[i]).chunk as int,
                ) && all[i].most == entries[all[i].chunk as int].count && all[i].fewest
                    == fewest_of(entries, min_lod, all[i].chunk as int) && all[i].priority
                    == views[all[i].chunk as int].priority
            &&& forall|i: int, j: int|
                0 <= i < j < all.len() ==> (#[trigger] all[i]).chunk < (#[trigger] all[j]).chunk
            &&& forall|c: int| #[trigger]
                is_seen(entries, views, limits, c) ==> exists|i: int|
                    0 <= i < all.len() && (#[trigger] all[i]).chunk == c
        }),
{
    lemma_seen(entries, views, limits, min_lod, entries.len());
}

/// Whether an item of a selection shows one of the candidates, with as many splats as it can be
/// shown with.
pub open spec fn shows_candidate(all: Seq<ViewCandidate>, n: int, item: (u32, u32)) -> bool {
    exists|i: int|
        0 <= i < n && (#[trigger] all[i]).chunk == item.0 && all[i].fewest <= item.1 <= all[i].most
}

proof fn lemma_share_in_bounds(all: Seq<ViewCandidate>, order: Seq<usize>, budget: int, i: int)
    requires
        0 <= budget <= u32::MAX,
        0 <= i < all.len(),
        is_order(view_keys(all), order),
        are_candidates(all),
    ensures
        share_of_candidate(all, order, budget, i) matches Some(share) ==> all[i].fewest <= share
            <= all[i].most,
{
    let p = position(view_keys(all), i);
    lemma_position_in_order(view_keys(all), order, i);
    lemma_rounds_within_budget(all, order, budget, p as nat);
    assert(all[i].fewest <= all[i].most);
}

/// What is shown names every chunk at most once, in the order of the table, and shows it with at
/// least the fewest splats that it can be shown with and at most all that it has.
pub proof fn shown_chunks_are_candidates(
    all: Seq<ViewCandidate>,
    order: Seq<usize>,
    budget: int,
    n: nat,
)
    requires
        0 <= budget <= u32::MAX,
        n <= all.len(),
        is_order(view_keys(all), order),
        are_candidates(all),
        forall|i: int, j: int|
            0 <= i < j < all.len() ==> (#[trigger] all[i]).chunk < (#[trigger] all[j]).chunk,
    ensures
        ({
            let shown = shown_chunks(all, order, budget, n);
            &&& forall|a: int, b: int|
                0 <= a < b < shown.len() ==> (#[trigger] shown[a]).0 < (#[trigger] shown[b]).0
            &&& forall|a: int|
                0 <= a < shown.len() ==> shows_candidate(all, n as int, #[trigger] shown[a])
            &&& forall|i: int|
                0 <= i < n && (#[trigger] share_of_candidate(all, order, budget, i)) is Some
                    ==> shown.contains(
                    (all[i].chunk, share_of_candidate(all, order, budget, i)->0),
                )
        }),
    decreases n,
{
    if n > 0 {
        let m = (n - 1) as nat;
        shown_chunks_are_candidates(all, order, budget, m);
        lemma_share_in_bounds(all, order, budget, m as int);
        let prev = shown_chunks(all, order, budget, m);
        let shown = shown_chunks(all, order, budget, n);
        assert forall|a: int| 0 <= a < shown.len() implies shows_candidate(
            all,
            n as int,
            #[trigger] shown[a],
        ) by {
            if a < prev.len() {
                assert(shows_candidate(all, m as int, prev[a]));
                let i = choose|i: int|
                    0 <= i < m && (#[trigger] all[i]).chunk == prev[a].0 && all[i].fewest
                        <= prev[a].1 <= all[i].most;
                assert(all[i].chunk == shown[a].0);
            } else {
                assert(all[m as int].chunk == shown[a].0);
            }
        }
        assert forall|a: int, b: int| 0 <= a < b < shown.len() implies (#[trigger] shown[a]).0 < (
        #[trigger] shown[b]).0 by {
            if b == prev.len() {
                assert(shows_candidate(all, m as int, prev[a]));
                let i = choose|i: int|
                    0 <= i < m && (#[trigger] all[i]).chunk == prev[a].0 && all[i].fewest
                        <= prev[a].1 <= all[i].most;
                assert(all[i].chunk < all[m as int].chunk);
            }
        }
        assert forall|i: int|
            0 <= i < n && (#[trigger] share_of_candidate(all, order, budget, i))
                is Some implies shown.contains(
            (all[i].chunk, share_of_candidate(all, order, budget, i)->0),
        ) by {
            let item = (all[i].chunk, share_of_candidate(all, order, budget, i)->0);
            if i < m {
                assert(prev.contains(item));
                let a = choose|a: int| 0 <= a < prev.len() && prev[a] == item;
                assert(shown[a] == item);
            } else {
                assert(shown[shown.len() - 1] == item);
            }
        }
    }
}

proof fn lemma_kept_grows(all: Seq<ViewCandidate>, order: Seq<usize>, budget: int, m: nat, n: nat)
    requires
        m <= n,
    ensures
        kept_total(all, order, budget, m) <= kept_total(all, order, budget, n),
    decreases n,
{
    if m < n {
        lemma_kept_grows(all, order, budget, m, (n - 1) as nat);
    }
}

proof fn lemma_raised_grows(
    all: Seq<ViewCandidate>,
    order: Seq<usize>,
    budget: int,
    m: nat,
    n: nat,
)
    requires
        0 <= budget,
        m <= n <= all.len(),
        is_order(view_keys(all), order),
        are_candidates(all),
    ensures
        raised_total(all, order, budget, m) <= raised_total(all, order, budget, n) <= budget,
    decreases n,
{
    lemma_rounds_within_budget(all, order, budget, n);
    if m < n {
        lemma_raised_grows(all, order, budget, m, (n - 1) as nat);
        lemma_rounds_within_budget(all, order, budget, (n - 1) as nat);
        assert(all[order[n - 1] as int].fewest <= all[order[n - 1] as int].most);
    }
}

/// Nothing of the budget is left that could be used: a chunk in view that is not shown would not
/// fit besides what is shown, and where one is not shown in full the budget is used up.
pub proof fn no_budget_is_wasted(
    all: Seq<ViewCandidate>,
    order: Seq<usize>,
    budget: int,
    i: int,
)
    requires
        0 <= budget <= u32::MAX,
        0 <= i < all.len(),
        is_order(view_keys(all), order),
        are_candidates(all),
    ensures
        ({
            let used = selected_total(shown_chunks(all, order, budget, all.len()));
            match share_of_candidate(all, order, budget, i) {
                None => used + all[i].fewest > budget,
                Some(share) => share < all[i].most ==> used == budget,
            }
        }),
{
    let p = position(view_keys(all), i);
    lemma_position_in_order(view_keys(all), order, i);
    lemma_shown_total(all, order, budget);
    lemma_kept_grows(all, order, budget, p as nat, all.len());
    lemma_rounds_within_budget(all, order, budget, p as nat);
    lemma_raised_grows(all, order, budget, 0, all.len());
    lemma_raised_grows(all, order, budget, (p + 1) as nat, all.len());
    assert(all[i].fewest <= all[i].most);
}

/// A chunk of higher priority is served before one of lower priority: it is not left out where the
/// other is shown and needs as many splats, and where it is not shown in full the other gets no
/// more than it needs.
pub proof fn higher_priority_is_served_first(
    all: Seq<ViewCandidate>,
    order: Seq<usize>,
    budget: int,
    i: int,
    j: int,
)
    requires
        0 <= budget <= u32::MAX,
        0 <= i < all.len(),
        0 <= j < all.len(),
        is_order(view_keys(all), order),
        are_candidates(all),
        all[j].priority.below(all[i].priority),
    ensures
        share_of_candidate(all, order, budget, j) is Some && all[i].fewest <= all[j].fewest
            ==> share_of_candidate(all, order, budget, i) is Some,
        share_of_candidate(all, order, budget, i) matches Some(share) ==> share < all[i].most ==> (
        share_of_candidate(all, order, budget, j) matches Some(other) ==> other == all[j].fewest),
{
    let keys = view_keys(all);
    ranks_sort_numbers(all[j].priority, all[i].priority);
    assert(precedes(keys, i, j));
    positions_are_a_permutation(keys, i, j);
    lemma_position_in_order(keys, order, i);
    lemma_position_in_order(keys, order, j);
    let p = position(keys, i);
    let q = position(keys, j);
    lemma_kept_grows(all, order, budget, p as nat, q as nat);
    if let Some(share) = share_of_candidate(all, order, budget, i) {
        if share < all[i].most {
            crate::view_selection::distant_chunks_give_way(
                all,
                order,
                budget,
                p as nat,
                q as nat,
            );
        }
    }
}

/// Whether levels are listed by chunk.
pub open spec fn are_by_chunk(lods: Seq<PackNodeLod>) -> bool {
    forall|i: int, j: int|
        0 <= i < j < lods.len() ==> (#[trigger] lods[i]).chunk_index <= (
        #[trigger] lods[j]).chunk_index
}

proof fn lemma_from_chunk(lods: Seq<PackNodeLod>, chunk_index: u32) -> (k: int)
    requires
        are_by_chunk(lods),
    ensures
        0 <= k <= lods.len(),
        from_chunk(lods, chunk_index) == lods.skip(k),
        forall|i: int| 0 <= i < k ==> (#[trigger] lods[i]).chunk_index < chunk_index,
        forall|i: int| k <= i < lods.len() ==> (#[trigger] lods[i]).chunk_index >= chunk_index,
    decreases lods.len(),
{
    if lods.len() > 0 && lods[0].chunk_index < chunk_index {
        let rest = lods.skip(1);
        assert forall|i: int, j: int| 0 <= i < j < rest.len() implies (
        #[trigger] rest[i]).chunk_index <= (#[trigger] rest[j]).chunk_index by {
            assert(lods[i + 1].chunk_index <= lods[j + 1].chunk_index);
        }
        let k = lemma_from_chunk(rest, chunk_index);
        assert(rest.skip(k) =~= lods.skip(k + 1));
        assert forall|i: int| 0 <= i < k + 1 implies (#[trigger] lods[i]).chunk_index
            < chunk_index by {
            if i > 0 {
                assert(rest[i - 1] == lods[i]);
            }
        }
        assert forall|i: int| k + 1 <= i < lods.len() implies (#[trigger] lods[i]).chunk_index
            >= chunk_index by {
            assert(rest[i - 1] == lods[i]);
        }
        k + 1
    } else {
        assert(lods.skip(0) =~= lods);
        assert forall|i: int| 0 <= i < lods.len() implies (#[trigger] lods[i]).chunk_index
            >= chunk_index by {
            if i > 0 {
                assert(lods[0].chunk_index <= lods[i].chunk_index);
            }
        }
        0
    }
}

proof fn lemma_leading(lods: Seq<PackNodeLod>, chunk_index: u32, first_page: u32, lod: PackNodeLod)
    requires
        are_by_chunk(lods),
        lods.len() > 0 ==> lods[0].chunk_index >= chunk_index,
    ensures
        leading_lods(lods, chunk_index, first_page).contains(lod) <==> lods.contains(lod)
            && lod.chunk_index == chunk_index && lod.count > 0 && lod.first_page >= first_page,
    decreases lods.len(),
{
    let found = leading_lods(lods, chunk_index, first_page);
    if lods.len() > 0 && lods[0].chunk_index == chunk_index {
        let rest = lods.skip(1);
        assert forall|i: int, j: int| 0 <= i < j < rest.len() implies (
        #[trigger] rest[i]).chunk_index <= (#[trigger] rest[j]).chunk_index by {
            assert(lods[i + 1].chunk_index <= lods[j + 1].chunk_index);
        }
        if rest.len() > 0 {
            assert(lods[0].chunk_index <= lods[1].chunk_index);
        }
        lemma_leading(rest, chunk_index, first_page, lod);
        let others = leading_lods(rest, chunk_index, first_page);
        if found.contains(lod) {
            let k = choose|k: int| 0 <= k < found.len() && found[k] == lod;
            if lods[0].count > 0 && lods[0].first_page >= first_page {
                if k == 0 {
                    assert(lods[0] == lod);
                } else {
                    assert(others[k - 1] == lod);
                }
            }
            if others.contains(lod) {
                let r = choose|r: int| 0 <= r < rest.len() && rest[r] == lod;
                assert(lods[r + 1] == lod);
            }
        }
        if lods.contains(lod) && lod.chunk_index == chunk_index && lod.count > 0 && lod.first_page
            >= first_page {
            let r = choose|r: int| 0 <= r < lods.len() && lods[r] == lod;
            if r == 0 {
                assert(found[0] == lod);
            } else {
                assert(rest[r - 1] == lod);
                let k = choose|k: int| 0 <= k < others.len() && others[k] == lod;
                if lods[0].count > 0 && lods[0].first_page >= first_page {
                    assert(found[k + 1] == lod);
                } else {
                    assert(found[k] == lod);
                }
            }
        }
    } else if lods.contains(lod) {
        let r = choose|r: int| 0 <= r < lods.len() && lods[r] == lod;
        if r > 0 {
            assert(lods[0].chunk_index <= lods[r].chunk_index);
        }
    }
}

/// The levels of a chunk that can be shown are those of the table that are the chunk's, hold
/// splats, and have pages among the chunk's.
pub proof fn usable_levels_are_those_of_the_chunk(
    chunks: Seq<PackChunk>,
    lods: Seq<PackNodeLod>,
    chunk_index: u32,
    lod: PackNodeLod,
)
    requires
        are_by_chunk(lods),
    ensures
        usable_lods(chunks, lods, chunk_index).contains(lod) <==> chunk_index < chunks.len()
            && lods.contains(lod) && lod.chunk_index == chunk_index && lod.count > 0
            && lod.first_page >= chunks[chunk_index as int].first_page,
{
    if chunk_index < chunks.len() {
        let first_page = chunks[chunk_index as int].first_page;
        let k = lemma_from_chunk(lods, chunk_index);
        let rest = lods.skip(k);
        assert forall|i: int, j: int| 0 <= i < j < rest.len() implies (
        #[trigger] rest[i]).chunk_index <= (#[trigger] rest[j]).chunk_index by {
            assert(lods[i + k].chunk_index <= lods[j + k].chunk_index);
        }
        if rest.len() > 0 {
            assert(rest[0] == lods[k]);
        }
        lemma_leading(rest, chunk_index, first_page, lod);
        if rest.contains(lod) {
            let r = choose|r: int| 0 <= r < rest.len() && rest[r] == lod;
            assert(lods[r + k] == lod);
        }
        if lods.contains(lod) && lod.chunk_index == chunk_index {
            let r = choose|r: int| 0 <= r < lods.len() && lods[r] == lod;
            assert(r >= k);
            assert(rest[r - k] == lod);
        }
    }
}

/// Whether a chunk of a pack is in view and can be shown.
pub open spec fn is_offered(
    chunks: Seq<PackChunk>,
    lods: Seq<PackNodeLod>,
    views: Seq<ChunkView>,
    limits: ViewLimits,
    c: int,
) -> bool {
    0 <= c < chunks.len() && in_view(limits, views[c]) && usable_lods(chunks, lods, c as u32).len()
        > 0
}

proof fn lemma_offered(
    chunks: Seq<PackChunk>,
    lods: Seq<PackNodeLod>,
    views: Seq<ChunkView>,
    limits: ViewLimits,
    n: nat,
)
    requires
        n <= chunks.len() <= u32::MAX,
    ensures
        ({
            let all = candidates(chunks, lods, views, limits, n);
            &&& forall|i: int|
                0 <= i < all.len() ==> 0 <= (#[trigger] all[i]).chunk < n && is_offered(
                    chunks,
                    lods,
                    views,
                    limits,
                    all[i].chunk,
                ) && all[i].priority == views[all[i].chunk].priority
            &&& forall|i: int, count: u32|
                0 <= i < all.len() && #[trigger] all[i].counts.contains(count) ==> has_count(
                    usable_lods(chunks, lods, all[i].chunk as u32),
                    count,
                )
            &&& forall|i: int, count: u32|
                0 <= i < all.len() && #[trigger] has_count(
                    usable_lods(chunks, lods, all[i].chunk as u32),
                    count,
                ) ==> all[i].counts.contains(count)
            &&& forall|c: int|
                0 <= c < n && #[trigger] is_offered(chunks, lods, views, limits, c) ==> exists|
                    i: int,
                |
                    0 <= i < all.len() && (#[trigger] all[i]).chunk == c
        }),
    decreases n,
{
    if n > 0 {
        let m = (n - 1) as nat;
        lemma_offered(chunks, lods, views, limits, m);
        let prev = candidates(chunks, lods, views, limits, m);
        let all = candidates(chunks, lods, views, limits, n);
        let usable = usable_lods(chunks, lods, m as u32);
        let counts = usable_counts(chunks, lods, m as int);
        assert forall|count: u32| counts.contains(count) == has_count(usable, count) by {
            if counts.contains(count) {
                let k = choose|k: int| 0 <= k < counts.len() && counts[k] == count;
                assert(usable[k].count == count);
            }
            if has_count(usable, count) {
                let k = choose|k: int| 0 <= k < usable.len() && (#[trigger] usable[k]).count
                    == count;
                assert(counts[k] == count);
            }
        }
        assert forall|i: int| 0 <= i < all.len() implies all[i] == prev[i] || (#[trigger] all[i]
            == LodCandidate { chunk: m as int, priority: views[m as int].priority, counts }) by {}
        assert forall|i: int, count: u32|
            0 <= i < all.len() && #[trigger] all[i].counts.contains(count) implies has_count(
            usable_lods(chunks, lods, all[i].chunk as u32),
            count,
        ) by {
            if i < prev.len() {
                assert(prev[i].counts.contains(count));
            }
        }
        assert forall|i: int, count: u32|
            0 <= i < all.len() && #[trigger] has_count(
                usable_lods(chunks, lods, all[i].chunk as u32),
                count,
            ) implies all[i].counts.contains(count) by {
            if i < prev.len() {
                assert(prev[i].counts.contains(count));
            }
        }
        assert forall|c: int|
            0 <= c < n && #[trigger] is_offered(chunks, lods, views, limits, c) implies exists|
                i: int,
            |
            0 <= i < all.len() && (#[trigger] all[i]).chunk == c by {
            if c < m {
                let i = choose|i: int| 0 <= i < prev.len() && (#[trigger] prev[i]).chunk == c;
                assert(all[i].chunk == c);
            } else {
                assert(all[all.len() - 1].chunk == c);
            }
        }
    }
}

/// Whether one of the levels has a splat count.
pub open spec fn has_count(lods: Seq<PackNodeLod>, count: u32) -> bool {
    exists|k: int| 0 <= k < lods.len() && (#[trigger] lods[k]).count == count
}

/// Every chunk of a pack that is in view and can be shown is a candidate, in the order of the pack,
/// with the splat counts of its usable levels, and nothing else is.
pub proof fn offers_are_what_is_seen(
    chunks: Seq<PackChunk>,
    lods: Seq<PackNodeLod>,
    views: Seq<ChunkView>,
    limits: ViewLimits,
)
    requires
        chunks.len() <= u32::MAX,
    ensures
        ({
            let all = candidates(chunks, lods, views, limits, chunks.len());
            &&& forall|i: int|
                0 <= i < all.len() ==> is_offered(
                    chunks,
                    lods,
                    views,
                    limits,
                    (#[trigger] all[i]).chunk,
                ) && all[i].priority == views[all[i].chunk].priority
            &&& forall|i: int, j: int|
                0 <= i < j < all.len() ==> (#[trigger] all[i]).chunk < (#[trigger] all[j]).chunk
            &&& forall|i: int, count: u32|
                0 <= i < all.len() && #[trigger] all[i].counts.contains(count) ==> has_count(
                    usable_lods(chunks, lods, all[i].chunk as u32),
                    count,
                )
            &&& forall|i: int, count: u32|
                0 <= i < all.len() && #[trigger] has_count(
                    usable_lods(chunks, lods, all[i].chunk as u32),
                    count,
                ) ==> all[i].counts.contains(count)
            &&& forall|c: int| #[trigger]
                is_offered(chunks, lods, views, limits, c) ==> exists|i: int|
                    0 <= i < all.len() && (#[trigger] all[i]).chunk == c
        }),
{
    lemma_offered(chunks, lods, views, limits, chunks.len());
    lemma_candidates_nonempty(chunks, lods, views, limits, chunks.len());
}

proof fn lemma_base_grows(all: Seq<LodCandidate>, order: Seq<usize>, budget: int, m: nat, n: nat)
    requires
        m <= n <= all.len(),
        is_order(priority_keys(all), order),
        forall|i: int| 0 <= i < all.len() ==> (#[trigger] all[i]).counts.len() > 0,
    ensures
        base_total(all, order, budget, m) <= base_total(all, order, budget, n),
    decreases n,
{
    if m < n {
        lemma_base_grows(all, order, budget, m, (n - 1) as nat);
        assert(all[order[n - 1] as int].counts.len() > 0);
        lemma_smallest_count(all[order[n - 1] as int].counts);
    }
}

proof fn lemma_upgraded_grows(
    all: Seq<LodCandidate>,
    order: Seq<usize>,
    budget: int,
    m: nat,
    n: nat,
)
    requires
        0 <= budget,
        m <= n <= all.len(),
        is_order(priority_keys(all), order),
        forall|i: int| 0 <= i < all.len() ==> (#[trigger] all[i]).counts.len() > 0,
    ensures
        upgraded_total(all, order, budget, m) <= upgraded_total(all, order, budget, n) <= budget,
    decreases n,
{
    lemma_totals_within_budget(all, order, budget, n);
    if m < n {
        lemma_upgraded_grows(all, order, budget, m, (n - 1) as nat);
        let counts = all[order[n - 1] as int].counts;
        lemma_best_upgrade(
            counts,
            smallest_count(counts),
            budget - upgraded_total(all, order, budget, (n - 1) as nat),
        );
    }
}

/// Nothing of the budget is left that could be used: no level of a chunk that is not shown would
/// fit besides what is shown, and no chunk that is shown could be raised to a higher level.
pub proof fn no_level_is_missed(
    all: Seq<LodCandidate>,
    order: Seq<usize>,
    budget: int,
    i: int,
    count: u32,
)
    requires
        0 <= budget <= u32::MAX,
        0 <= i < all.len(),
        is_order(priority_keys(all), order),
        forall|j: int| 0 <= j < all.len() ==> (#[trigger] all[j]).counts.len() > 0,
        all[i].counts.contains(count),
    ensures
        ({
            let used = selected_total(granted_list(all, order, budget, all.len()));
            match granted(all, order, budget, position(priority_keys(all), i) as nat) {
                None => used + count > budget,
                Some(given) => count > given ==> used - given + count > budget,
            }
        }),
{
    let p = position(priority_keys(all), i);
    lemma_position_in_order(priority_keys(all), order, i);
    let counts = all[i].counts;
    lemma_selected_total(all, order, budget);
    lemma_smallest_count(counts);
    lemma_base_grows(all, order, budget, p as nat, all.len());
    lemma_totals_within_budget(all, order, budget, p as nat);
    lemma_upgraded_grows(all, order, budget, 0, all.len());
    lemma_upgraded_grows(all, order, budget, (p + 1) as nat, all.len());
    let room = budget - upgraded_total(all, order, budget, p as nat);
    lemma_best_upgrade(counts, smallest_count(counts), room);
    let k = choose|k: int| 0 <= k < counts.len() && counts[k] == count;
    assert(smallest_count(counts) <= counts[k]);
    if counts[k] - smallest_count(counts) <= room {
        assert(counts[k] <= best_upgrade(counts, smallest_count(counts), room));
    }
    let s = choose|s: int| 0 <= s < counts.len() && counts[s] == smallest_count(counts);
    assert(best_upgrade(counts, smallest_count(counts), room) <= u32::MAX);
}

/// A chunk of higher priority is served before one of lower priority: it is not left out where the
/// other is shown and none of the other's levels has fewer splats than one of its own.
pub proof fn higher_priority_gets_a_level(
    all: Seq<LodCandidate>,
    order: Seq<usize>,
    budget: int,
    i: int,
    j: int,
    count: u32,
)
    requires
        0 <= budget <= u32::MAX,
        0 <= i < all.len(),
        0 <= j < all.len(),
        is_order(priority_keys(all), order),
        forall|k: int| 0 <= k < all.len() ==> (#[trigger] all[k]).counts.len() > 0,
        all[j].priority.below(all[i].priority),
        all[i].counts.contains(count),
        forall|k: int| 0 <= k < all[j].counts.len() ==> count <= #[trigger] all[j].counts[k],
        granted(all, order, budget, position(priority_keys(all), j) as nat) is Some,
    ensures
        granted(all, order, budget, position(priority_keys(all), i) as nat) is Some,
{
    let keys = priority_keys(all);
    ranks_sort_numbers(all[j].priority, all[i].priority);
    assert(precedes(keys, i, j));
    positions_are_a_permutation(keys, i, j);
    lemma_position_in_order(keys, order, i);
    lemma_position_in_order(keys, order, j);
    lemma_base_grows(all, order, budget, position(keys, i) as nat, position(keys, j) as nat);
    lemma_smallest_count(all[i].counts);
    lemma_smallest_count(all[j].counts);
    let k = choose|k: int| 0 <= k < all[i].counts.len() && all[i].counts[k] == count;
    assert(smallest_count(all[i].counts) <= all[i].counts[k]);
    let s = choose|s: int|
        0 <= s < all[j].counts.len() && all[j].counts[s] == smallest_count(all[j].counts);
    assert(count <= all[j].counts[s]);
}

/// The level used for a request holds no more splats than asked for, if any level does; no level
/// comes closer.
pub proof fn best_level_comes_closest(
    lods: Seq<PackNodeLod>,
    chunk_index: u32,
    requested: u32,
    i: int,
    j: int,
)
    requires
        is_best_lod(lods, chunk_index, requested, i),
        0 <= j < lods.len(),
        lods[j].chunk_index == chunk_index,
    ensures
        0 <= i < lods.len(),
        lods[i].chunk_index == chunk_index,
        lods[j].count <= requested ==> lods[j].count <= lods[i].count <= requested,
        lods[i].count > requested ==> lods[j].count >= lods[i].count,
{
}

} // verus!
