//! Choosing the chunks of a table by how they stand to the viewer.

use crate::chunking::{ChunkEntry, ChunkTable};
use crate::floats::{F32, ONE_BITS, ZERO_BITS};
use crate::gsplat_pack::layout::least;
use crate::gsplat_pack::selection::{
    all_angles, in_view, selected_total, ChunkView, ViewLimits, ALL_ANGLES_BITS, FULL_CIRCLE_BITS,
};
use crate::sorting::{
    is_order, lemma_order_position, lemma_position_in_order, lemma_prefix_is_filtered_sum,
    lemma_sum_agree, position, prefix_weight, stable_order, sum_of, SortKey,
};
use vstd::prelude::*;

verus! {

/// A chunk in view, with the fewest and the most splats that it can be shown with.
#[derive(Clone, Copy, Debug, PartialEq, Eq, Structural)]
pub struct ViewCandidate {
    pub chunk: u32,
    pub priority: F32,
    pub fewest: u32,
    pub most: u32,
}

/// A chunk as a candidate: shown with all of its splats, or with no fewer than `min_lod`.
pub open spec fn candidate_of(
    entries: Seq<ChunkEntry>,
    views: Seq<ChunkView>,
    min_lod: u32,
    c: int,
) -> ViewCandidate {
    ViewCandidate {
        chunk: c as u32,
        priority: views[c].priority,
        fewest: if min_lod == 0 {
            1
        } else {
            least(min_lod as int, entries[c].count as int) as u32
        },
        most: entries[c].count,
    }
}

/// The candidates among the first `n` chunks, in chunk order. One without splats is none.
pub open spec fn chunks_in_view(
    entries: Seq<ChunkEntry>,
    views: Seq<ChunkView>,
    limits: ViewLimits,
    min_lod: u32,
    n: nat,
) -> Seq<ViewCandidate>
    decreases n,
{
    if n == 0 {
        Seq::empty()
    } else {
        let prev = chunks_in_view(entries, views, limits, min_lod, (n - 1) as nat);
        if in_view(limits, views[n - 1]) && entries[n - 1].count > 0 {
            prev.push(candidate_of(entries, views, min_lod, n - 1))
        } else {
            prev
        }
    }
}

/// Whether every candidate has splats, and its bounds are in order.
pub open spec fn are_candidates(all: Seq<ViewCandidate>) -> bool {
    forall|i: int|
        0 <= i < all.len() ==> 1 <= (#[trigger] all[i]).fewest && all[i].fewest <= all[i].most
}

/// What candidates are sorted by: the highest priority first.
pub open spec fn view_keys(all: Seq<ViewCandidate>) -> Seq<SortKey> {
    Seq::new(
        all.len(),
        |i: int| SortKey { major: all[i].priority.descending_rank() as i128, minor: 0 },
    )
}

/// The splats taken so far when the first `n` candidates in order have each been offered the
/// fewest splats that they can be shown with.
pub open spec fn kept_total(
    all: Seq<ViewCandidate>,
    order: Seq<usize>,
    budget: int,
    n: nat,
) -> int
    decreases n,
{
    if n == 0 {
        0
    } else {
        let total = kept_total(all, order, budget, (n - 1) as nat);
        let fewest = all[order[n - 1] as int].fewest;
        if total + fewest <= budget {
            total + fewest
        } else {
            total
        }
    }
}

/// Whether the candidate at place `n` is shown.
pub open spec fn is_kept(all: Seq<ViewCandidate>, order: Seq<usize>, budget: int, n: nat) -> bool {
    kept_total(all, order, budget, n) + all[order[n as int] as int].fewest <= budget
}

/// The splats taken once, after that, the first `n` candidates in order have each been offered all
/// that is left of the budget.
pub open spec fn raised_total(
    all: Seq<ViewCandidate>,
    order: Seq<usize>,
    budget: int,
    n: nat,
) -> int
    decreases n,
{
    if n == 0 {
        kept_total(all, order, budget, all.len())
    } else {
        let total = raised_total(all, order, budget, (n - 1) as nat);
        let c = all[order[n - 1] as int];
        if is_kept(all, order, budget, (n - 1) as nat) {
            total + least(c.most - c.fewest, budget - total)
        } else {
            total
        }
    }
}

/// The splats that the candidate at place `n` ends up with.
pub open spec fn view_share(
    all: Seq<ViewCandidate>,
    order: Seq<usize>,
    budget: int,
    n: nat,
) -> Option<u32> {
    let c = all[order[n as int] as int];
    if is_kept(all, order, budget, n) {
        Some(
            (c.fewest + least(
                c.most - c.fewest,
                budget - raised_total(all, order, budget, n),
            )) as u32,
        )
    } else {
        None
    }
}

/// What the candidate `i` ends up with.
pub open spec fn share_of_candidate(
    all: Seq<ViewCandidate>,
    order: Seq<usize>,
    budget: int,
    i: int,
) -> Option<u32> {
    view_share(all, order, budget, position(view_keys(all), i) as nat)
}

/// The chunks that are shown, in chunk order, each with its splats.
pub open spec fn shown_chunks(
    all: Seq<ViewCandidate>,
    order: Seq<usize>,
    budget: int,
    n: nat,
) -> Seq<(u32, u32)>
    decreases n,
{
    if n == 0 {
        Seq::empty()
    } else {
        let prev = shown_chunks(all, order, budget, (n - 1) as nat);
        match share_of_candidate(all, order, budget, n - 1) {
            Some(share) => prev.push((all[n - 1].chunk, share)),
            None => prev,
        }
    }
}

/// Neither round exceeds the budget.
pub proof fn lemma_rounds_within_budget(
    all: Seq<ViewCandidate>,
    order: Seq<usize>,
    budget: int,
    n: nat,
)
    requires
        budget >= 0,
        n <= all.len(),
        is_order(view_keys(all), order),
        are_candidates(all),
    ensures
        0 <= kept_total(all, order, budget, n) <= budget,
        0 <= kept_total(all, order, budget, all.len()) <= budget,
        kept_total(all, order, budget, all.len()) <= raised_total(all, order, budget, n) <= budget,
    decreases n,
{
    lemma_kept_within_budget(all, order, budget, n);
    lemma_kept_within_budget(all, order, budget, all.len());
    if n > 0 {
        lemma_rounds_within_budget(all, order, budget, (n - 1) as nat);
        assert(all[order[n - 1] as int].fewest <= all[order[n - 1] as int].most);
    }
}

pub proof fn lemma_kept_within_budget(
    all: Seq<ViewCandidate>,
    order: Seq<usize>,
    budget: int,
    n: nat,
)
    requires
        budget >= 0,
    ensures
        0 <= kept_total(all, order, budget, n) <= budget,
    decreases n,
{
    if n > 0 {
        lemma_kept_within_budget(all, order, budget, (n - 1) as nat);
    }
}

/// What candidate `i` got, nothing counting as zero.
spec fn share_weight(all: Seq<ViewCandidate>, order: Seq<usize>, budget: int) -> spec_fn(int) -> int {
    |i: int|
        match share_of_candidate(all, order, budget, i) {
            Some(share) => share as int,
            None => 0,
        }
}

/// The two rounds add up to what the candidates got.
proof fn lemma_shares_add_up(all: Seq<ViewCandidate>, order: Seq<usize>, budget: int, n: nat)
    requires
        0 <= budget <= u32::MAX,
        n <= all.len(),
        is_order(view_keys(all), order),
        are_candidates(all),
    ensures
        prefix_weight(order, share_weight(all, order, budget), n) == raised_total(
            all,
            order,
            budget,
            n,
        ) - kept_total(all, order, budget, all.len()) + kept_total(all, order, budget, n),
    decreases n,
{
    if n > 0 {
        let m = (n - 1) as nat;
        lemma_shares_add_up(all, order, budget, m);
        lemma_order_position(view_keys(all), order, m as int);
        lemma_rounds_within_budget(all, order, budget, m);
        let c = all[order[m as int] as int];
        assert(1 <= c.fewest && c.fewest <= c.most);
    }
}

/// Listing what the candidates got in chunk order adds up to the same.
proof fn lemma_shown_add_up(all: Seq<ViewCandidate>, order: Seq<usize>, budget: int, n: nat)
    ensures
        selected_total(shown_chunks(all, order, budget, n)) == sum_of(
            share_weight(all, order, budget),
            n,
        ),
    decreases n,
{
    if n > 0 {
        lemma_shown_add_up(all, order, budget, (n - 1) as nat);
        let prev = shown_chunks(all, order, budget, (n - 1) as nat);
        let next = shown_chunks(all, order, budget, n);
        if share_of_candidate(all, order, budget, n - 1) is Some {
            assert(next.drop_last() =~= prev);
        }
    }
}

/// The chunks that are shown hold what the two rounds have taken.
pub proof fn lemma_shown_total(all: Seq<ViewCandidate>, order: Seq<usize>, budget: int)
    requires
        0 <= budget <= u32::MAX,
        is_order(view_keys(all), order),
        are_candidates(all),
    ensures
        selected_total(shown_chunks(all, order, budget, all.len())) == raised_total(
            all,
            order,
            budget,
            all.len(),
        ),
{
    let n = all.len();
    let weights = share_weight(all, order, budget);
    lemma_shares_add_up(all, order, budget, n);
    lemma_shown_add_up(all, order, budget, n);
    lemma_prefix_is_filtered_sum(view_keys(all), order, weights, n);
    let met = |j: int|
        if crate::sorting::among_first(order, n as int, j) {
            weights(j)
        } else {
            0
        };
    assert forall|j: int| 0 <= j < n implies #[trigger] met(j) == weights(j) by {
        assert(order.contains(j as usize));
        let q = choose|q: int| 0 <= q < order.len() && order[q] == j as usize;
        assert(order[q] == j);
    }
    lemma_sum_agree(met, weights, n);
}

/// The chunks that are shown never hold more splats than the budget.
pub proof fn view_respects_budget(all: Seq<ViewCandidate>, order: Seq<usize>, budget: int)
    requires
        0 <= budget <= u32::MAX,
        is_order(view_keys(all), order),
        are_candidates(all),
    ensures
        selected_total(shown_chunks(all, order, budget, all.len())) <= budget,
{
    lemma_shown_total(all, order, budget);
    lemma_rounds_within_budget(all, order, budget, all.len());
}

/// The splats of all candidates, each shown with as few as it can be.
pub open spec fn fewest_total(all: Seq<ViewCandidate>, order: Seq<usize>, n: nat) -> int {
    prefix_weight(order, |i: int| all[i].fewest as int, n)
}

/// The splats of all candidates, each shown in full.
pub open spec fn full_total(all: Seq<ViewCandidate>, order: Seq<usize>, n: nat) -> int {
    prefix_weight(order, |i: int| all[i].most as int, n)
}

proof fn lemma_totals_grow(all: Seq<ViewCandidate>, order: Seq<usize>, m: nat, n: nat)
    requires
        m <= n <= all.len(),
        is_order(view_keys(all), order),
        are_candidates(all),
    ensures
        fewest_total(all, order, m) <= fewest_total(all, order, n),
        fewest_total(all, order, n) - fewest_total(all, order, m) <= full_total(all, order, n)
            - full_total(all, order, m),
    decreases n,
{
    if m < n {
        lemma_totals_grow(all, order, m, (n - 1) as nat);
        let c = all[order[n - 1] as int];
        assert(1 <= c.fewest && c.fewest <= c.most);
    }
}

proof fn lemma_all_kept(all: Seq<ViewCandidate>, order: Seq<usize>, budget: int, n: nat)
    requires
        n <= all.len(),
        is_order(view_keys(all), order),
        are_candidates(all),
        fewest_total(all, order, all.len()) <= budget,
    ensures
        kept_total(all, order, budget, n) == fewest_total(all, order, n),
    decreases n,
{
    if n > 0 {
        lemma_all_kept(all, order, budget, (n - 1) as nat);
        lemma_totals_grow(all, order, n, all.len());
    }
}

/// Where the budget reaches for the fewest splats of every chunk in view, every one of them is
/// shown: density is lowered before a region is dropped.
pub proof fn regions_are_not_dropped(
    all: Seq<ViewCandidate>,
    order: Seq<usize>,
    budget: int,
    i: int,
)
    requires
        0 <= i < all.len(),
        is_order(view_keys(all), order),
        are_candidates(all),
        fewest_total(all, order, all.len()) <= budget <= u32::MAX,
    ensures
        share_of_candidate(all, order, budget, i) matches Some(share) && all[i].fewest <= share
            <= all[i].most,
{
    lemma_position_in_order(view_keys(all), order, i);
    let p = position(view_keys(all), i) as nat;
    lemma_all_kept(all, order, budget, p);
    lemma_totals_grow(all, order, (p + 1) as nat, all.len());
    lemma_totals_grow(all, order, 0, all.len());
    lemma_rounds_within_budget(all, order, budget, p);
    assert(1 <= all[i].fewest && all[i].fewest <= all[i].most);
}

proof fn lemma_all_raised(all: Seq<ViewCandidate>, order: Seq<usize>, budget: int, n: nat)
    requires
        n <= all.len(),
        is_order(view_keys(all), order),
        are_candidates(all),
        full_total(all, order, all.len()) <= budget,
    ensures
        fewest_total(all, order, all.len()) <= budget,
        raised_total(all, order, budget, n) == fewest_total(all, order, all.len()) + full_total(
            all,
            order,
            n,
        ) - fewest_total(all, order, n),
    decreases n,
{
    lemma_totals_grow(all, order, 0, all.len());
    lemma_all_kept(all, order, budget, all.len());
    if n > 0 {
        let m = (n - 1) as nat;
        lemma_all_raised(all, order, budget, m);
        lemma_all_kept(all, order, budget, m);
        lemma_totals_grow(all, order, n, all.len());
        let c = all[order[n - 1] as int];
        assert(1 <= c.fewest && c.fewest <= c.most);
    }
}

/// Where the budget reaches for all splats of the chunks in view, every one of them is shown in
/// full.
pub proof fn ample_budget_shows_the_view(
    all: Seq<ViewCandidate>,
    order: Seq<usize>,
    budget: int,
    i: int,
)
    requires
        0 <= i < all.len(),
        is_order(view_keys(all), order),
        are_candidates(all),
        full_total(all, order, all.len()) <= budget,
    ensures
        share_of_candidate(all, order, budget, i) == Some(all[i].most),
{
    lemma_position_in_order(view_keys(all), order, i);
    let p = position(view_keys(all), i) as nat;
    lemma_all_raised(all, order, budget, p);
    lemma_all_kept(all, order, budget, p);
    lemma_totals_grow(all, order, (p + 1) as nat, all.len());
    assert(1 <= all[i].fewest && all[i].fewest <= all[i].most);
}

proof fn lemma_used_up(
    all: Seq<ViewCandidate>,
    order: Seq<usize>,
    budget: int,
    m: nat,
    n: nat,
)
    requires
        m <= n <= all.len(),
        is_order(view_keys(all), order),
        are_candidates(all),
        raised_total(all, order, budget, m) == budget,
    ensures
        raised_total(all, order, budget, n) == budget,
    decreases n,
{
    if m < n {
        lemma_used_up(all, order, budget, m, (n - 1) as nat);
        let c = all[order[n - 1] as int];
        assert(1 <= c.fewest && c.fewest <= c.most);
    }
}

/// Density is lowered from the back: where a chunk is not shown in full, every one that comes after
/// it is shown with as few splats as it can be, or not at all.
pub proof fn distant_chunks_give_way(
    all: Seq<ViewCandidate>,
    order: Seq<usize>,
    budget: int,
    p: nat,
    q: nat,
)
    requires
        p < q < all.len(),
        0 <= budget <= u32::MAX,
        is_order(view_keys(all), order),
        are_candidates(all),
        view_share(all, order, budget, p) matches Some(share) && share
            < all[order[p as int] as int].most,
    ensures
        view_share(all, order, budget, q) matches Some(share) ==> share
            == all[order[q as int] as int].fewest,
{
    let c = all[order[p as int] as int];
    assert(1 <= c.fewest && c.fewest <= c.most);
    lemma_rounds_within_budget(all, order, budget, p);
    assert(raised_total(all, order, budget, (p + 1) as nat) == budget);
    lemma_used_up(all, order, budget, (p + 1) as nat, q);
    let d = all[order[q as int] as int];
    assert(1 <= d.fewest && d.fewest <= d.most);
}

/// The candidates are sound, and every chunk is one at most once.
pub proof fn lemma_chunks_in_view(
    entries: Seq<ChunkEntry>,
    views: Seq<ChunkView>,
    limits: ViewLimits,
    min_lod: u32,
    n: nat,
)
    ensures
        are_candidates(chunks_in_view(entries, views, limits, min_lod, n)),
        chunks_in_view(entries, views, limits, min_lod, n).len() <= n,
    decreases n,
{
    if n > 0 {
        lemma_chunks_in_view(entries, views, limits, min_lod, (n - 1) as nat);
    }
}

/// The chunks of a table that are in view, in chunk order.
fn list_in_view(
    table: &ChunkTable,
    views: &Vec<ChunkView>,
    limits: &ViewLimits,
    min_lod: u32,
) -> (all: Vec<ViewCandidate>)
    requires
        views@.len() == table.entries@.len() <= u32::MAX,
    ensures
        all@ == chunks_in_view(table.entries@, views@, *limits, min_lod, table.entries@.len()),
{
    let low = F32 { bits: ONE_BITS };
    let high = F32 { bits: FULL_CIRCLE_BITS };
    let threshold = F32 { bits: ALL_ANGLES_BITS };
    let include_all_angles: bool = threshold.le(limits.fov_degrees.clamp(low, high));
    let mut all: Vec<ViewCandidate> = Vec::new();
    let mut i: usize = 0;
    while i < table.entries.len()
        invariant
            i <= table.entries@.len() == views@.len(),
            table.entries@.len() <= u32::MAX,
            include_all_angles == all_angles(*limits),
            all@ == chunks_in_view(table.entries@, views@, *limits, min_lod, i as nat),
        decreases table.entries@.len() - i,
    {
        let view: ChunkView = views[i];
        let count: u32 = table.entries[i].count;
        if !limits.full_distance.lt(view.distance) && (include_all_angles || !view.center_dot.lt(
            limits.cos_half_fov,
        )) && count > 0 {
            let fewest: u32 = if min_lod == 0 {
                1
            } else if min_lod < count {
                min_lod
            } else {
                count
            };
            all.push(
                ViewCandidate { chunk: i as u32, priority: view.priority, fewest, most: count },
            );
        }
        i = i + 1;
    }
    all
}

/// The order in which the candidates are served.
fn order_by_priority(all: &Vec<ViewCandidate>) -> (order: Vec<usize>)
    ensures
        is_order(view_keys(all@), order@),
{
    let mut keys: Vec<SortKey> = Vec::new();
    let mut i: usize = 0;
    while i < all.len()
        invariant
            i <= all@.len(),
            keys@ == view_keys(all@).take(i as int),
        decreases all@.len() - i,
    {
        let rank: i64 = all[i].priority.to_descending_rank();
        keys.push(SortKey { major: rank as i128, minor: 0 });
        assert(keys@ =~= view_keys(all@).take(i + 1));
        i = i + 1;
    }
    assert(keys@ =~= view_keys(all@));
    stable_order(&keys)
}

/// What the candidates end up with, in the order in which they are served.
fn serve(all: &Vec<ViewCandidate>, order: &Vec<usize>, budget: u32) -> (shares: Vec<Option<u32>>)
    requires
        is_order(view_keys(all@), order@),
        are_candidates(all@),
    ensures
        shares@.len() == order@.len(),
        forall|q: int|
            0 <= q < order@.len() ==> #[trigger] shares@[q] == view_share(
                all@,
                order@,
                budget as int,
                q as nat,
            ),
{
    let mut total: u32 = 0;
    let mut kept: Vec<bool> = Vec::new();
    let mut p: usize = 0;
    while p < order.len()
        invariant
            p <= order@.len() == all@.len(),
            is_order(view_keys(all@), order@),
            total == kept_total(all@, order@, budget as int, p as nat),
            total <= budget,
            kept@.len() == p,
            forall|q: int|
                0 <= q < p ==> #[trigger] kept@[q] == is_kept(
                    all@,
                    order@,
                    budget as int,
                    q as nat,
                ),
        decreases order@.len() - p,
    {
        let fewest: u32 = all[order[p]].fewest;
        let fits: bool = fewest <= budget - total;
        kept.push(fits);
        if fits {
            total = total + fewest;
        }
        p = p + 1;
    }
    let mut shares: Vec<Option<u32>> = Vec::new();
    p = 0;
    while p < order.len()
        invariant
            p <= order@.len() == all@.len(),
            is_order(view_keys(all@), order@),
            are_candidates(all@),
            total == raised_total(all@, order@, budget as int, p as nat),
            total <= budget,
            kept@.len() == order@.len(),
            forall|q: int|
                0 <= q < order@.len() ==> #[trigger] kept@[q] == is_kept(
                    all@,
                    order@,
                    budget as int,
                    q as nat,
                ),
            shares@.len() == p,
            forall|q: int|
                0 <= q < p ==> #[trigger] shares@[q] == view_share(
                    all@,
                    order@,
                    budget as int,
                    q as nat,
                ),
        decreases order@.len() - p,
    {
        let c: ViewCandidate = all[order[p]];
        assert(1 <= c.fewest && c.fewest <= c.most);
        if kept[p] {
            let wanted: u32 = c.most - c.fewest;
            let extra: u32 = if wanted <= budget - total {
                wanted
            } else {
                budget - total
            };
            shares.push(Some(c.fewest + extra));
            total = total + extra;
        } else {
            shares.push(None);
        }
        p = p + 1;
    }
    shares
}

/// Chooses the chunks in view, each with how many of its splats are shown. In the order of priority
/// each chunk gets the fewest splats that it can be shown with, if they fit; then, in the same
/// order, all that still fit.
pub fn select_chunks_view_priority(
    table: &ChunkTable,
    views: &Vec<ChunkView>,
    limits: &ViewLimits,
    budget: u32,
    min_lod: u32,
) -> (selected: Vec<(u32, u32)>)
    requires
        views@.len() == table.entries@.len() <= u32::MAX,
    ensures
        ({
            let all = chunks_in_view(
                table.entries@,
                views@,
                *limits,
                min_lod,
                table.entries@.len(),
            );
            if budget == 0 || limits.full_distance.at_most(F32 { bits: ZERO_BITS }) {
                selected@ == Seq::<(u32, u32)>::empty()
            } else {
                exists|order: Seq<usize>| #[trigger]
                    is_order(view_keys(all), order) && selected@ == shown_chunks(
                        all,
                        order,
                        budget as int,
                        all.len(),
                    )
            }
        }),
        selected_total(selected@) <= budget,
{
    let mut selected: Vec<(u32, u32)> = Vec::new();
    if budget == 0 || limits.full_distance.le(F32 { bits: ZERO_BITS }) {
        return selected;
    }
    let all: Vec<ViewCandidate> = list_in_view(table, views, limits, min_lod);
    proof {
        lemma_chunks_in_view(table.entries@, views@, *limits, min_lod, table.entries@.len());
    }
    let order: Vec<usize> = order_by_priority(&all);
    let shares: Vec<Option<u32>> = serve(&all, &order, budget);
    let mut place: Vec<usize> = vec![0; all.len()];
    let mut p: usize = 0;
    while p < order.len()
        invariant
            p <= order@.len() == all@.len() == place@.len(),
            is_order(view_keys(all@), order@),
            forall|q: int| 0 <= q < p ==> place@[#[trigger] order@[q] as int] == q,
        decreases order@.len() - p,
    {
        proof {
            assert forall|q: int| 0 <= q < p implies #[trigger] order@[q] != order@[p as int] by {
                lemma_order_position(view_keys(all@), order@, q);
                lemma_order_position(view_keys(all@), order@, p as int);
            }
        }
        place.set(order[p], p);
        p = p + 1;
    }
    let mut i: usize = 0;
    while i < all.len()
        invariant
            i <= all@.len() == order@.len() == place@.len() == shares@.len(),
            is_order(view_keys(all@), order@),
            forall|q: int| 0 <= q < order@.len() ==> place@[#[trigger] order@[q] as int] == q,
            forall|q: int|
                0 <= q < order@.len() ==> #[trigger] shares@[q] == view_share(
                    all@,
                    order@,
                    budget as int,
                    q as nat,
                ),
            selected@ == shown_chunks(all@, order@, budget as int, i as nat),
        decreases all@.len() - i,
    {
        proof {
            lemma_position_in_order(view_keys(all@), order@, i as int);
            let q = position(view_keys(all@), i as int);
            assert(order@[q] == i);
            assert(place@[order@[q] as int] == q);
        }
        if let Some(share) = shares[place[i]] {
            selected.push((all[i].chunk, share));
        }
        i = i + 1;
    }
    proof {
        view_respects_budget(all@, order@, budget as int);
    }
    selected
}

} // verus!
