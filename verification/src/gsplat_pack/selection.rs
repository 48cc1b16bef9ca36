//! Choosing levels of detail from a pack.

use crate::chunking::{ChunkEntry, ChunkTable};
use crate::floats::{F32, ONE_BITS, ZERO_BITS};
use crate::gsplat_pack::{GsplatPackIndex, PackChunk, PackNodeLod};
use crate::sorting::{
    is_order, lemma_order_position, lemma_position_in_order, lemma_prefix_is_filtered_sum,
    lemma_sum_agree, position, prefix_weight, stable_order, sum_of, SortKey,
};
use vstd::prelude::*;

verus! {

/// The bits of 360.0.
pub const FULL_CIRCLE_BITS: u32 = 0x43b4_0000;

/// The bits of 359.999: from this field of view on, every direction is in view.
pub const ALL_ANGLES_BITS: u32 = 0x43b3_ffdf;

/// Whether level of detail `i` is the one to use for a chunk when `requested` splats are asked
/// for: the largest that does not exceed the request, or the smallest if all do; the first of
/// several equal ones.
pub open spec fn is_best_lod(
    lods: Seq<PackNodeLod>,
    chunk_index: u32,
    requested: u32,
    i: int,
) -> bool {
    &&& 0 <= i < lods.len()
    &&& lods[i].chunk_index == chunk_index
    &&& if lods[i].count <= requested {
        forall|j: int|
            0 <= j < lods.len() && (#[trigger] lods[j]).chunk_index == chunk_index && lods[j].count
                <= requested ==> lods[j].count < lods[i].count || (lods[j].count == lods[i].count
                && i <= j)
    } else {
        forall|j: int|
            0 <= j < lods.len() && (#[trigger] lods[j]).chunk_index == chunk_index ==> lods[j].count
                > lods[i].count || (lods[j].count == lods[i].count && i <= j)
    }
}

/// The records from the first on whose chunk is not below `chunk_index`.
pub open spec fn from_chunk(lods: Seq<PackNodeLod>, chunk_index: u32) -> Seq<PackNodeLod>
    decreases lods.len(),
{
    if lods.len() > 0 && lods[0].chunk_index < chunk_index {
        from_chunk(lods.skip(1), chunk_index)
    } else {
        lods
    }
}

/// The leading records of a chunk that hold splats and whose pages are the chunk's.
pub open spec fn leading_lods(lods: Seq<PackNodeLod>, chunk_index: u32, first_page: u32) -> Seq<
    PackNodeLod,
>
    decreases lods.len(),
{
    if lods.len() > 0 && lods[0].chunk_index == chunk_index {
        let rest = leading_lods(lods.skip(1), chunk_index, first_page);
        if lods[0].count > 0 && lods[0].first_page >= first_page {
            seq![lods[0]] + rest
        } else {
            rest
        }
    } else {
        Seq::empty()
    }
}

/// The usable levels of detail of a chunk.
pub open spec fn usable_lods(
    chunks: Seq<PackChunk>,
    lods: Seq<PackNodeLod>,
    chunk_index: u32,
) -> Seq<PackNodeLod> {
    if chunk_index < chunks.len() {
        leading_lods(
            from_chunk(lods, chunk_index),
            chunk_index,
            chunks[chunk_index as int].first_page,
        )
    } else {
        Seq::empty()
    }
}

impl GsplatPackIndex {
    /// How the splats are partitioned.
    pub fn chunk_table(&self) -> (table: ChunkTable)
        ensures
            table.chunk_size == self.chunk_size,
            table.grid_origin == self.grid_origin,
            table.stride == self.stride,
            table.entries@ == Seq::new(self.chunks@.len(), |i: int| self.chunks@[i].entry),
    {
        let mut entries: Vec<ChunkEntry> = Vec::new();
        let mut i: usize = 0;
        while i < self.chunks.len()
            invariant
                i <= self.chunks@.len(),
                entries@ == Seq::new(i as nat, |k: int| self.chunks@[k].entry),
            decreases self.chunks@.len() - i,
        {
            entries.push(self.chunks[i].entry);
            i = i + 1;
            assert(entries@ =~= Seq::new(i as nat, |k: int| self.chunks@[k].entry));
        }
        ChunkTable {
            chunk_size: self.chunk_size,
            grid_origin: self.grid_origin,
            entries,
            stride: self.stride,
        }
    }

    /// The level of detail to use for a chunk when `requested_count` splats are asked for.
    pub fn best_lod_for_request(&self, chunk_index: u32, requested_count: u32) -> (result: Option<
        &PackNodeLod,
    >)
        ensures
            match result {
                Some(lod) => exists|i: int|
                    #[trigger] is_best_lod(self.lods@, chunk_index, requested_count, i)
                        && *lod == self.lods@[i],
                None => forall|i: int|
                    0 <= i < self.lods@.len() ==> (#[trigger] self.lods@[i]).chunk_index
                        != chunk_index,
            },
    {
        let mut smallest: Option<usize> = None;
        let mut best: Option<usize> = None;
        let mut i: usize = 0;
        while i < self.lods.len()
            invariant
                i <= self.lods@.len(),
                match smallest {
                    Some(s) => s < i && self.lods@[s as int].chunk_index == chunk_index && (
                    forall|j: int|
                        0 <= j < i && (#[trigger] self.lods@[j]).chunk_index == chunk_index
                            ==> self.lods@[j].count > self.lods@[s as int].count || (
                        self.lods@[j].count == self.lods@[s as int].count && s <= j)),
                    None => forall|j: int|
                        0 <= j < i ==> (#[trigger] self.lods@[j]).chunk_index != chunk_index,
                },
                match best {
                    Some(b) => b < i && self.lods@[b as int].chunk_index == chunk_index
                        && self.lods@[b as int].count <= requested_count && (forall|j: int|
                        0 <= j < i && (#[trigger] self.lods@[j]).chunk_index == chunk_index
                            && self.lods@[j].count <= requested_count ==> self.lods@[j].count
                            < self.lods@[b as int].count || (self.lods@[j].count
                            == self.lods@[b as int].count && b <= j)),
                    None => forall|j: int|
                        0 <= j < i && (#[trigger] self.lods@[j]).chunk_index == chunk_index
                            ==> self.lods@[j].count > requested_count,
                },
            decreases self.lods@.len() - i,
        {
            let lod: PackNodeLod = self.lods[i];
            if lod.chunk_index == chunk_index {
                let smaller: bool = match smallest {
                    Some(s) => lod.count < self.lods[s].count,
                    None => true,
                };
                if smaller {
                    smallest = Some(i);
                }
                let better: bool = lod.count <= requested_count && match best {
                    Some(b) => lod.count > self.lods[b].count,
                    None => true,
                };
                if better {
                    best = Some(i);
                }
            }
            i = i + 1;
        }
        match best {
            Some(b) => {
                assert(is_best_lod(self.lods@, chunk_index, requested_count, b as int));
                Some(&self.lods[b])
            },
            None => match smallest {
                Some(s) => {
                    assert(is_best_lod(self.lods@, chunk_index, requested_count, s as int));
                    Some(&self.lods[s])
                },
                None => None,
            },
        }
    }

    /// The usable levels of detail of a chunk.
    fn chunk_lods(&self, chunk_index: u32) -> (found: Vec<PackNodeLod>)
        ensures
            found@ == usable_lods(self.chunks@, self.lods@, chunk_index),
    {
        let mut found: Vec<PackNodeLod> = Vec::new();
        if chunk_index as usize >= self.chunks.len() {
            return found;
        }
        let first_page: u32 = self.chunks[chunk_index as usize].first_page;
        let ghost whole = self.lods@;
        let mut i: usize = 0;
        assert(whole.skip(0) =~= whole);
        while i < self.lods.len() && self.lods[i].chunk_index < chunk_index
            invariant
                whole == self.lods@,
                i <= whole.len(),
                from_chunk(whole, chunk_index) == from_chunk(whole.skip(i as int), chunk_index),
            decreases whole.len() - i,
        {
            assert(whole.skip(i as int).skip(1) =~= whole.skip(i + 1));
            i = i + 1;
        }
        assert(from_chunk(whole, chunk_index) == whole.skip(i as int));
        let ghost all = leading_lods(whole.skip(i as int), chunk_index, first_page);
        assert(found@ + all =~= all);
        while i < self.lods.len() && self.lods[i].chunk_index == chunk_index
            invariant
                whole == self.lods@,
                i <= whole.len(),
                found@ + leading_lods(whole.skip(i as int), chunk_index, first_page) == all,
            decreases whole.len() - i,
        {
            let lod: PackNodeLod = self.lods[i];
            let ghost before = found@;
            let ghost rest = leading_lods(whole.skip(i + 1), chunk_index, first_page);
            assert(whole.skip(i as int).skip(1) =~= whole.skip(i + 1));
            if lod.count > 0 && lod.first_page >= first_page {
                found.push(lod);
                assert(before + (seq![lod] + rest) =~= found@ + rest);
            }
            i = i + 1;
        }
        assert(found@ + Seq::<PackNodeLod>::empty() =~= found@);
        found
    }
}

/// How a chunk stands to the viewer: how far its bounds are, the cosine of the angle between the
/// viewing direction and its center, and how much it matters.
#[derive(Clone, Copy, Debug, PartialEq, Eq, Structural)]
pub struct ChunkView {
    pub distance: F32,
    pub center_dot: F32,
    pub priority: F32,
}

/// The viewer's limits: the field of view, the cosine of half of it, and the farthest distance.
#[derive(Clone, Copy, Debug, PartialEq, Eq, Structural)]
pub struct ViewLimits {
    pub fov_degrees: F32,
    pub cos_half_fov: F32,
    pub full_distance: F32,
}

/// Whether the field of view leaves no direction out.
pub open spec fn all_angles(limits: ViewLimits) -> bool {
    F32 { bits: ALL_ANGLES_BITS }.at_most(
        limits.fov_degrees.within(F32 { bits: ONE_BITS }, F32 { bits: FULL_CIRCLE_BITS }),
    )
}

/// Whether a chunk is near enough and within the field of view.
pub open spec fn in_view(limits: ViewLimits, view: ChunkView) -> bool {
    &&& !limits.full_distance.below(view.distance)
    &&& all_angles(limits) || !view.center_dot.below(limits.cos_half_fov)
}

/// A chunk that may be shown, with the splat counts of its usable levels of detail.
#[verifier::ext_equal]
pub ghost struct LodCandidate {
    pub chunk: int,
    pub priority: F32,
    pub counts: Seq<u32>,
}

/// The splat counts of the usable levels of detail of a chunk.
pub open spec fn usable_counts(
    chunks: Seq<PackChunk>,
    lods: Seq<PackNodeLod>,
    chunk: int,
) -> Seq<u32> {
    let usable = usable_lods(chunks, lods, chunk as u32);
    Seq::new(usable.len(), |i: int| usable[i].count)
}

/// The candidates among the first `n` chunks, in chunk order.
pub open spec fn candidates(
    chunks: Seq<PackChunk>,
    lods: Seq<PackNodeLod>,
    views: Seq<ChunkView>,
    limits: ViewLimits,
    n: nat,
) -> Seq<LodCandidate>
    decreases n,
{
    if n == 0 {
        Seq::empty()
    } else {
        let prev = candidates(chunks, lods, views, limits, (n - 1) as nat);
        let counts = usable_counts(chunks, lods, n - 1);
        if in_view(limits, views[n - 1]) && counts.len() > 0 {
            prev.push(LodCandidate { chunk: n - 1, priority: views[n - 1].priority, counts })
        } else {
            prev
        }
    }
}

/// What candidates are sorted by: the highest priority first.
pub open spec fn priority_keys(all: Seq<LodCandidate>) -> Seq<SortKey> {
    Seq::new(
        all.len(),
        |i: int| SortKey { major: all[i].priority.descending_rank() as i128, minor: 0 },
    )
}

/// The smallest of the counts.
pub open spec fn smallest_count(counts: Seq<u32>) -> int
    decreases counts.len(),
{
    if counts.len() <= 1 {
        counts[0] as int
    } else {
        let rest = smallest_count(counts.drop_last());
        if counts.last() < rest {
            counts.last() as int
        } else {
            rest
        }
    }
}

/// The largest of the counts that exceeds `base` by at most `room`, or `base` if there is none.
pub open spec fn best_upgrade(counts: Seq<u32>, base: int, room: int) -> int
    decreases counts.len(),
{
    if counts.len() == 0 {
        base
    } else {
        let rest = best_upgrade(counts.drop_last(), base, room);
        if counts.last() > rest && counts.last() - base <= room {
            counts.last() as int
        } else {
            rest
        }
    }
}

/// The splats taken so far when the first `n` candidates in order have each been offered their
/// smallest level of detail.
pub open spec fn base_total(
    all: Seq<LodCandidate>,
    order: Seq<usize>,
    budget: int,
    n: nat,
) -> int
    decreases n,
{
    if n == 0 {
        0
    } else {
        let total = base_total(all, order, budget, (n - 1) as nat);
        let least = smallest_count(all[order[n - 1] as int].counts);
        if total + least <= budget {
            total + least
        } else {
            total
        }
    }
}

/// Whether the candidate at place `n` gets its smallest level of detail.
pub open spec fn is_taken(
    all: Seq<LodCandidate>,
    order: Seq<usize>,
    budget: int,
    n: nat,
) -> bool {
    base_total(all, order, budget, n) + smallest_count(all[order[n as int] as int].counts) <= budget
}

/// The splats taken once, after that, the first `n` candidates in order have each been offered
/// the largest level of detail that still fits.
pub open spec fn upgraded_total(
    all: Seq<LodCandidate>,
    order: Seq<usize>,
    budget: int,
    n: nat,
) -> int
    decreases n,
{
    if n == 0 {
        base_total(all, order, budget, all.len())
    } else {
        let total = upgraded_total(all, order, budget, (n - 1) as nat);
        let counts = all[order[n - 1] as int].counts;
        if is_taken(all, order, budget, (n - 1) as nat) {
            total + best_upgrade(counts, smallest_count(counts), budget - total) - smallest_count(
                counts,
            )
        } else {
            total
        }
    }
}

/// The splats that the candidate at place `n` ends up with.
pub open spec fn granted(
    all: Seq<LodCandidate>,
    order: Seq<usize>,
    budget: int,
    n: nat,
) -> Option<u32> {
    let counts = all[order[n as int] as int].counts;
    if is_taken(all, order, budget, n) {
        Some(
            best_upgrade(
                counts,
                smallest_count(counts),
                budget - upgraded_total(all, order, budget, n),
            ) as u32,
        )
    } else {
        None
    }
}

/// The chunks that got something, in chunk order, each with what it got.
pub open spec fn granted_list(
    all: Seq<LodCandidate>,
    order: Seq<usize>,
    budget: int,
    n: nat,
) -> Seq<(u32, u32)>
    decreases n,
{
    if n == 0 {
        Seq::empty()
    } else {
        let prev = granted_list(all, order, budget, (n - 1) as nat);
        match granted(all, order, budget, position(priority_keys(all), n - 1) as nat) {
            Some(count) => prev.push((all[n - 1].chunk as u32, count)),
            None => prev,
        }
    }
}

/// A candidate in the making.
struct Offer {
    chunk_index: u32,
    priority: F32,
    counts: Vec<u32>,
}

spec fn offer_view(offer: Offer) -> LodCandidate {
    LodCandidate {
        chunk: offer.chunk_index as int,
        priority: offer.priority,
        counts: offer.counts@,
    }
}

spec fn offers_view(offers: Seq<Offer>) -> Seq<LodCandidate> {
    Seq::new(offers.len(), |i: int| offer_view(offers[i]))
}

/// The smallest count is one of the counts and no larger than any.
pub proof fn lemma_smallest_count(counts: Seq<u32>)
    requires
        counts.len() > 0,
    ensures
        0 <= smallest_count(counts) <= u32::MAX,
        exists|i: int| 0 <= i < counts.len() && #[trigger] counts[i] == smallest_count(counts),
        forall|i: int| 0 <= i < counts.len() ==> smallest_count(counts) <= #[trigger] counts[i],
    decreases counts.len(),
{
    if counts.len() > 1 {
        let rest = counts.drop_last();
        lemma_smallest_count(rest);
        let k = choose|k: int| 0 <= k < rest.len() && #[trigger] rest[k] == smallest_count(rest);
        assert(counts[k] == smallest_count(rest));
        assert forall|i: int| 0 <= i < counts.len() implies smallest_count(counts)
            <= #[trigger] counts[i] by {
            if i < rest.len() {
                assert(rest[i] == counts[i]);
            }
        }
        assert(counts[counts.len() - 1] == counts.last());
    } else {
        assert(counts[0] == smallest_count(counts));
    }
}

/// An upgrade never takes away, never exceeds the room, and is one of the counts if it adds any.
pub proof fn lemma_best_upgrade(counts: Seq<u32>, base: int, room: int)
    requires
        room >= 0,
    ensures
        base <= best_upgrade(counts, base, room),
        best_upgrade(counts, base, room) - base <= room,
        best_upgrade(counts, base, room) == base || exists|i: int|
            0 <= i < counts.len() && #[trigger] counts[i] == best_upgrade(counts, base, room),
        forall|i: int|
            0 <= i < counts.len() && #[trigger] counts[i] - base <= room ==> counts[i]
                <= best_upgrade(counts, base, room),
    decreases counts.len(),
{
    if counts.len() > 0 {
        let rest = counts.drop_last();
        lemma_best_upgrade(rest, base, room);
        let value = best_upgrade(counts, base, room);
        assert(counts[counts.len() - 1] == counts.last());
        if value == best_upgrade(rest, base, room) && value != base {
            let k = choose|k: int|
                0 <= k < rest.len() && #[trigger] rest[k] == best_upgrade(rest, base, room);
            assert(counts[k] == value);
        }
        assert forall|i: int|
            0 <= i < counts.len() && #[trigger] counts[i] - base <= room implies counts[i]
            <= value by {
            if i < rest.len() {
                assert(rest[i] == counts[i]);
            }
        }
    }
}

/// Neither round exceeds the budget.
pub proof fn lemma_totals_within_budget(
    all: Seq<LodCandidate>,
    order: Seq<usize>,
    budget: int,
    n: nat,
)
    requires
        budget >= 0,
        n <= all.len(),
        is_order(priority_keys(all), order),
        forall|i: int| 0 <= i < all.len() ==> (#[trigger] all[i]).counts.len() > 0,
    ensures
        0 <= base_total(all, order, budget, n) <= budget,
        0 <= upgraded_total(all, order, budget, n) <= budget,
    decreases n,
{
    lemma_base_within_budget(all, order, budget, n);
    lemma_base_within_budget(all, order, budget, all.len());
    if n > 0 {
        lemma_totals_within_budget(all, order, budget, (n - 1) as nat);
        let counts = all[order[n - 1] as int].counts;
        lemma_best_upgrade(
            counts,
            smallest_count(counts),
            budget - upgraded_total(all, order, budget, (n - 1) as nat),
        );
    }
}

pub proof fn lemma_base_within_budget(
    all: Seq<LodCandidate>,
    order: Seq<usize>,
    budget: int,
    n: nat,
)
    requires
        budget >= 0,
        n <= all.len(),
        is_order(priority_keys(all), order),
        forall|i: int| 0 <= i < all.len() ==> (#[trigger] all[i]).counts.len() > 0,
    ensures
        0 <= base_total(all, order, budget, n) <= budget,
    decreases n,
{
    if n > 0 {
        lemma_base_within_budget(all, order, budget, (n - 1) as nat);
        assert(all[order[n - 1] as int].counts.len() > 0);
        lemma_smallest_count(all[order[n - 1] as int].counts);
    }
}

/// The smallest of the counts.
fn least_of(counts: &Vec<u32>) -> (least: u32)
    requires
        counts@.len() > 0,
    ensures
        least == smallest_count(counts@),
{
    let mut least: u32 = counts[0];
    let mut i: usize = 1;
    assert(smallest_count(counts@.take(1)) == counts@.take(1)[0]);
    while i < counts.len()
        invariant
            1 <= i <= counts@.len(),
            least == smallest_count(counts@.take(i as int)),
        decreases counts@.len() - i,
    {
        assert(counts@.take(i + 1).drop_last() =~= counts@.take(i as int));
        if counts[i] < least {
            least = counts[i];
        }
        i = i + 1;
    }
    assert(counts@.take(counts@.len() as int) =~= counts@);
    least
}

/// The largest of the counts that fits.
fn upgrade_within(counts: &Vec<u32>, base: u32, room: u32) -> (best: u32)
    ensures
        best == best_upgrade(counts@, base as int, room as int),
{
    let mut best: u32 = base;
    let mut i: usize = 0;
    while i < counts.len()
        invariant
            i <= counts@.len(),
            base <= best,
            best == best_upgrade(counts@.take(i as int), base as int, room as int),
        decreases counts@.len() - i,
    {
        assert(counts@.take(i + 1).drop_last() =~= counts@.take(i as int));
        if counts[i] > best && counts[i] - base <= room {
            best = counts[i];
        }
        i = i + 1;
    }
    assert(counts@.take(counts@.len() as int) =~= counts@);
    best
}

impl GsplatPackIndex {
    /// The chunks that may be shown, in chunk order.
    fn offers(&self, views: &Vec<ChunkView>, limits: &ViewLimits) -> (offers: Vec<Offer>)
        requires
            views@.len() == self.chunks@.len(),
            self.chunks@.len() <= u32::MAX,
        ensures
            offers_view(offers@) == candidates(
                self.chunks@,
                self.lods@,
                views@,
                *limits,
                self.chunks@.len(),
            ),
    {
        let low = F32 { bits: ONE_BITS };
        let high = F32 { bits: FULL_CIRCLE_BITS };
        let threshold = F32 { bits: ALL_ANGLES_BITS };
        let include_all_angles: bool = threshold.le(limits.fov_degrees.clamp(low, high));
        let mut offers: Vec<Offer> = Vec::new();
        let mut i: usize = 0;
        assert(offers_view(offers@) =~= Seq::empty());
        while i < self.chunks.len()
            invariant
                i <= self.chunks@.len() == views@.len(),
                self.chunks@.len() <= u32::MAX,
                include_all_angles == all_angles(*limits),
                offers_view(offers@) == candidates(
                    self.chunks@,
                    self.lods@,
                    views@,
                    *limits,
                    i as nat,
                ),
            decreases self.chunks@.len() - i,
        {
            let view: ChunkView = views[i];
            let ghost prev = candidates(self.chunks@, self.lods@, views@, *limits, i as nat);
            let ghost before = offers@;
            if !limits.full_distance.lt(view.distance) && (include_all_angles
                || !view.center_dot.lt(limits.cos_half_fov)) {
                let lods: Vec<PackNodeLod> = self.chunk_lods(i as u32);
                let mut counts: Vec<u32> = Vec::new();
                let mut k: usize = 0;
                while k < lods.len()
                    invariant
                        k <= lods@.len(),
                        counts@ == Seq::new(k as nat, |m: int| lods@[m].count),
                    decreases lods@.len() - k,
                {
                    counts.push(lods[k].count);
                    k = k + 1;
                    assert(counts@ =~= Seq::new(k as nat, |m: int| lods@[m].count));
                }
                assert(counts@ == usable_counts(self.chunks@, self.lods@, i as int));
                if counts.len() > 0 {
                    offers.push(
                        Offer { chunk_index: i as u32, priority: view.priority, counts },
                    );
                    proof {
                        assert(offers_view(offers@) =~= prev.push(
                            LodCandidate {
                                chunk: i as int,
                                priority: view.priority,
                                counts: usable_counts(self.chunks@, self.lods@, i as int),
                            },
                        ));
                    }
                }
            }
            i = i + 1;
        }
        offers
    }

    /// Chooses a level of detail for every chunk in view that the budget reaches. In the order of
    /// priority each chunk gets its smallest level if that fits; then, in the same order, the
    /// largest that still fits.
    pub fn select_lods_view_priority(
        &self,
        views: &Vec<ChunkView>,
        limits: &ViewLimits,
        budget: u32,
    ) -> (selected: Vec<(u32, u32)>)
        requires
            views@.len() == self.chunks@.len(),
            self.chunks@.len() <= u32::MAX,
        ensures
            ({
                let all = candidates(
                    self.chunks@,
                    self.lods@,
                    views@,
                    *limits,
                    self.chunks@.len(),
                );
                if budget == 0 || limits.full_distance.at_most(F32 { bits: ZERO_BITS }) {
                    selected@ == Seq::<(u32, u32)>::empty()
                } else {
                    exists|order: Seq<usize>| #[trigger]
                        is_order(priority_keys(all), order) && selected@ == granted_list(
                            all,
                            order,
                            budget as int,
                            all.len(),
                        )
                }
            }),
            selected_total(selected@) <= budget,
    {
        let mut selected: Vec<(u32, u32)> = Vec::new();
        if budget == 0 || limits.full_distance.le(F32 { bits: ZERO_BITS }) {
            return selected;
        }
        let offers: Vec<Offer> = self.offers(views, limits);
        let ghost all = offers_view(offers@);
        proof {
            lemma_candidates_nonempty(
                self.chunks@,
                self.lods@,
                views@,
                *limits,
                self.chunks@.len(),
            );
        }
        let mut keys: Vec<SortKey> = Vec::new();
        let mut i: usize = 0;
        while i < offers.len()
            invariant
                i <= offers@.len(),
                all == offers_view(offers@),
                keys@ == priority_keys(all).take(i as int),
            decreases offers@.len() - i,
        {
            let rank: i64 = offers[i].priority.to_descending_rank();
            keys.push(SortKey { major: rank as i128, minor: 0 });
            assert(keys@ =~= priority_keys(all).take(i + 1));
            i = i + 1;
        }
        assert(keys@ =~= priority_keys(all));
        let order: Vec<usize> = stable_order(&keys);
        let mut total: u32 = 0;
        let mut least: Vec<u32> = Vec::new();
        let mut taken: Vec<bool> = Vec::new();
        let mut p: usize = 0;
        while p < order.len()
            invariant
                p <= order@.len() == all.len() == offers@.len(),
                all == offers_view(offers@),
                is_order(priority_keys(all), order@),
                forall|k: int| 0 <= k < all.len() ==> (#[trigger] all[k]).counts.len() > 0,
                total == base_total(all, order@, budget as int, p as nat),
                total <= budget,
                least@.len() == p,
                taken@.len() == p,
                forall|q: int|
                    0 <= q < p ==> #[trigger] least@[q] == smallest_count(
                        all[order@[q] as int].counts,
                    ),
                forall|q: int|
                    0 <= q < p ==> #[trigger] taken@[q] == is_taken(
                        all,
                        order@,
                        budget as int,
                        q as nat,
                    ),
            decreases order@.len() - p,
        {
            let k: usize = order[p];
            assert(all[k as int] == offer_view(offers@[k as int]));
            let smallest: u32 = least_of(&offers[k].counts);
            let fits: bool = smallest <= budget - total;
            least.push(smallest);
            taken.push(fits);
            if fits {
                total = total + smallest;
            }
            p = p + 1;
        }
        let mut gained: Vec<Option<u32>> = Vec::new();
        p = 0;
        while p < order.len()
            invariant
                p <= order@.len() == all.len() == offers@.len(),
                all == offers_view(offers@),
                is_order(priority_keys(all), order@),
                forall|k: int| 0 <= k < all.len() ==> (#[trigger] all[k]).counts.len() > 0,
                total == upgraded_total(all, order@, budget as int, p as nat),
                total <= budget,
                least@.len() == order@.len(),
                taken@.len() == order@.len(),
                forall|q: int|
                    0 <= q < order@.len() ==> #[trigger] least@[q] == smallest_count(
                        all[order@[q] as int].counts,
                    ),
                forall|q: int|
                    0 <= q < order@.len() ==> #[trigger] taken@[q] == is_taken(
                        all,
                        order@,
                        budget as int,
                        q as nat,
                    ),
                gained@.len() == p,
                forall|q: int|
                    0 <= q < p ==> #[trigger] gained@[q] == granted(
                        all,
                        order@,
                        budget as int,
                        q as nat,
                    ),
            decreases order@.len() - p,
        {
            let k: usize = order[p];
            assert(all[k as int] == offer_view(offers@[k as int]));
            if taken[p] {
                let smallest: u32 = least[p];
                let best: u32 = upgrade_within(&offers[k].counts, smallest, budget - total);
                proof {
                    lemma_best_upgrade(
                        all[k as int].counts,
                        smallest as int,
                        (budget - total) as int,
                    );
                }
                total = total + (best - smallest);
                gained.push(Some(best));
            } else {
                gained.push(None);
            }
            p = p + 1;
        }
        let mut place: Vec<usize> = vec![0; offers.len()];
        p = 0;
        while p < order.len()
            invariant
                p <= order@.len() == all.len() == place@.len(),
                is_order(priority_keys(all), order@),
                forall|q: int| 0 <= q < p ==> place@[#[trigger] order@[q] as int] == q,
            decreases order@.len() - p,
        {
            proof {
                assert forall|q: int| 0 <= q < p implies #[trigger] order@[q] != order@[p as int] by {
                    lemma_order_position(priority_keys(all), order@, q);
                    lemma_order_position(priority_keys(all), order@, p as int);
                }
            }
            place.set(order[p], p);
            p = p + 1;
        }
        i = 0;
        while i < offers.len()
            invariant
                i <= offers@.len() == all.len() == order@.len() == place@.len(),
                all == offers_view(offers@),
                is_order(priority_keys(all), order@),
                forall|q: int| 0 <= q < order@.len() ==> place@[#[trigger] order@[q] as int] == q,
                gained@.len() == order@.len(),
                forall|q: int|
                    0 <= q < order@.len() ==> #[trigger] gained@[q] == granted(
                        all,
                        order@,
                        budget as int,
                        q as nat,
                    ),
                selected@ == granted_list(all, order@, budget as int, i as nat),
            decreases offers@.len() - i,
        {
            proof {
                lemma_position_in_order(priority_keys(all), order@, i as int);
                let q = position(priority_keys(all), i as int);
                assert(order@[q] == i);
                assert(place@[order@[q] as int] == q);
            }
            assert(all[i as int] == offer_view(offers@[i as int]));
            if let Some(count) = gained[place[i]] {
                selected.push((offers[i].chunk_index, count));
            }
            i = i + 1;
        }
        proof {
            selection_respects_budget(all, order@, budget as int);
        }
        selected
    }
}

/// Every candidate has a level of detail, belongs to one of the chunks, and comes after the
/// candidates of lower chunks.
pub proof fn lemma_candidates_nonempty(
    chunks: Seq<PackChunk>,
    lods: Seq<PackNodeLod>,
    views: Seq<ChunkView>,
    limits: ViewLimits,
    n: nat,
)
    ensures
        ({
            let all = candidates(chunks, lods, views, limits, n);
            &&& all.len() <= n
            &&& forall|i: int| 0 <= i < all.len() ==> (#[trigger] all[i]).counts.len() > 0
            &&& forall|i: int| 0 <= i < all.len() ==> 0 <= (#[trigger] all[i]).chunk < n
            &&& forall|i: int, j: int|
                0 <= i < j < all.len() ==> (#[trigger] all[i]).chunk < (#[trigger] all[j]).chunk
        }),
    decreases n,
{
    if n > 0 {
        lemma_candidates_nonempty(chunks, lods, views, limits, (n - 1) as nat);
    }
}

/// The splats of a selection.
pub open spec fn selected_total(selected: Seq<(u32, u32)>) -> int
    decreases selected.len(),
{
    if selected.len() == 0 {
        0
    } else {
        selected_total(selected.drop_last()) + selected.last().1
    }
}

/// What candidate `i` got, nothing counting as zero.
pub open spec fn granted_weight(
    all: Seq<LodCandidate>,
    order: Seq<usize>,
    budget: int,
    i: int,
) -> int {
    match granted(all, order, budget, position(priority_keys(all), i) as nat) {
        Some(count) => count as int,
        None => 0,
    }
}

/// The two rounds add up to what the candidates got.
proof fn lemma_rounds_add_up(all: Seq<LodCandidate>, order: Seq<usize>, budget: int, n: nat)
    requires
        0 <= budget <= u32::MAX,
        n <= all.len(),
        is_order(priority_keys(all), order),
        forall|i: int| 0 <= i < all.len() ==> (#[trigger] all[i]).counts.len() > 0,
    ensures
        prefix_weight(order, |i: int| granted_weight(all, order, budget, i), n)
            == upgraded_total(all, order, budget, n) - base_total(all, order, budget, all.len())
            + base_total(all, order, budget, n),
    decreases n,
{
    if n > 0 {
        let m = (n - 1) as nat;
        lemma_rounds_add_up(all, order, budget, m);
        lemma_order_position(priority_keys(all), order, m as int);
        lemma_totals_within_budget(all, order, budget, m);
        let counts = all[order[m as int] as int].counts;
        assert(counts.len() > 0);
        lemma_smallest_count(counts);
        let room = budget - upgraded_total(all, order, budget, m);
        lemma_best_upgrade(counts, smallest_count(counts), room);
    }
}

/// Listing what the candidates got in chunk order adds up to the same.
proof fn lemma_list_adds_up(all: Seq<LodCandidate>, order: Seq<usize>, budget: int, n: nat)
    ensures
        selected_total(granted_list(all, order, budget, n)) == sum_of(
            |i: int| granted_weight(all, order, budget, i),
            n,
        ),
    decreases n,
{
    if n > 0 {
        lemma_list_adds_up(all, order, budget, (n - 1) as nat);
        let prev = granted_list(all, order, budget, (n - 1) as nat);
        let next = granted_list(all, order, budget, n);
        if next != prev {
            assert(next.drop_last() =~= prev);
        }
    }
}

/// A selection holds what the two rounds have taken.
pub proof fn lemma_selected_total(all: Seq<LodCandidate>, order: Seq<usize>, budget: int)
    requires
        0 <= budget <= u32::MAX,
        is_order(priority_keys(all), order),
        forall|i: int| 0 <= i < all.len() ==> (#[trigger] all[i]).counts.len() > 0,
    ensures
        selected_total(granted_list(all, order, budget, all.len())) == upgraded_total(
            all,
            order,
            budget,
            all.len(),
        ),
{
    let n = all.len();
    let weights = |i: int| granted_weight(all, order, budget, i);
    lemma_rounds_add_up(all, order, budget, n);
    lemma_list_adds_up(all, order, budget, n);
    lemma_prefix_is_filtered_sum(priority_keys(all), order, weights, n);
    let met = |j: int|
        if crate::sorting::among_first(order, n as int, j) {
            weights(j)
        } else {
            0
        };
    assert forall|j: int| 0 <= j < n implies #[trigger] met(j) == weights(j) by {
        assert(order.contains(j as usize));
        let q = choose|q: int| 0 <= q < order.len() && order[q] == j as usize;
        assert(order[q] == j);
    }
    lemma_sum_agree(met, weights, n);
}

/// A selection never holds more splats than the budget.
pub proof fn selection_respects_budget(all: Seq<LodCandidate>, order: Seq<usize>, budget: int)
    requires
        0 <= budget <= u32::MAX,
        is_order(priority_keys(all), order),
        forall|i: int| 0 <= i < all.len() ==> (#[trigger] all[i]).counts.len() > 0,
    ensures
        selected_total(granted_list(all, order, budget, all.len())) <= budget,
{
    lemma_selected_total(all, order, budget);
    lemma_totals_within_budget(all, order, budget, all.len());
}

/// The largest of the counts.
pub open spec fn largest_count(counts: Seq<u32>) -> int
    decreases counts.len(),
{
    if counts.len() <= 1 {
        counts[0] as int
    } else {
        let rest = largest_count(counts.drop_last());
        if counts.last() > rest {
            counts.last() as int
        } else {
            rest
        }
    }
}

/// The largest count is one of the counts and no smaller than any.
proof fn lemma_largest_count(counts: Seq<u32>)
    requires
        counts.len() > 0,
    ensures
        exists|i: int| 0 <= i < counts.len() && #[trigger] counts[i] == largest_count(counts),
        forall|i: int| 0 <= i < counts.len() ==> #[trigger] counts[i] <= largest_count(counts),
    decreases counts.len(),
{
    if counts.len() > 1 {
        let rest = counts.drop_last();
        lemma_largest_count(rest);
        let k = choose|k: int| 0 <= k < rest.len() && #[trigger] rest[k] == largest_count(rest);
        assert(counts[k] == largest_count(rest));
        assert forall|i: int| 0 <= i < counts.len() implies #[trigger] counts[i] <= largest_count(
            counts,
        ) by {
            if i < rest.len() {
                assert(rest[i] == counts[i]);
            }
        }
        assert(counts[counts.len() - 1] == counts.last());
    } else {
        assert(counts[0] == largest_count(counts));
    }
}

/// The splats of the first `n` candidates in order, each at its smallest level of detail.
pub open spec fn smallest_total(all: Seq<LodCandidate>, order: Seq<usize>, n: nat) -> int {
    prefix_weight(order, |i: int| smallest_count(all[i].counts), n)
}

/// The splats of the first `n` candidates in order, each at its largest level of detail.
pub open spec fn largest_total(all: Seq<LodCandidate>, order: Seq<usize>, n: nat) -> int {
    prefix_weight(order, |i: int| largest_count(all[i].counts), n)
}

proof fn lemma_level_totals_grow(all: Seq<LodCandidate>, order: Seq<usize>, m: nat, n: nat)
    requires
        m <= n <= all.len(),
        is_order(priority_keys(all), order),
        forall|i: int| 0 <= i < all.len() ==> (#[trigger] all[i]).counts.len() > 0,
    ensures
        smallest_total(all, order, m) <= smallest_total(all, order, n),
        smallest_total(all, order, n) - smallest_total(all, order, m) <= largest_total(
            all,
            order,
            n,
        ) - largest_total(all, order, m),
    decreases n,
{
    if m < n {
        lemma_level_totals_grow(all, order, m, (n - 1) as nat);
        let counts = all[order[n - 1] as int].counts;
        assert(counts.len() > 0);
        lemma_smallest_count(counts);
        lemma_largest_count(counts);
    }
}

/// Where the budget reaches for the smallest levels, the first round leaves nobody out.
proof fn lemma_all_taken(all: Seq<LodCandidate>, order: Seq<usize>, budget: int, n: nat)
    requires
        n <= all.len(),
        is_order(priority_keys(all), order),
        forall|i: int| 0 <= i < all.len() ==> (#[trigger] all[i]).counts.len() > 0,
        smallest_total(all, order, all.len()) <= budget,
    ensures
        base_total(all, order, budget, n) == smallest_total(all, order, n),
        n < all.len() ==> is_taken(all, order, budget, n),
    decreases n,
{
    if n > 0 {
        lemma_all_taken(all, order, budget, (n - 1) as nat);
    }
    if n < all.len() {
        lemma_level_totals_grow(all, order, (n + 1) as nat, all.len());
    }
}

/// Where the budget reaches for the largest levels, the second round raises everybody to them.
proof fn lemma_all_upgraded(all: Seq<LodCandidate>, order: Seq<usize>, budget: int, n: nat)
    requires
        n <= all.len(),
        is_order(priority_keys(all), order),
        forall|i: int| 0 <= i < all.len() ==> (#[trigger] all[i]).counts.len() > 0,
        largest_total(all, order, all.len()) <= budget,
    ensures
        smallest_total(all, order, all.len()) <= budget,
        upgraded_total(all, order, budget, n) == smallest_total(all, order, all.len())
            + largest_total(all, order, n) - smallest_total(all, order, n),
        n < all.len() ==> ({
            let counts = all[order[n as int] as int].counts;
            best_upgrade(
                counts,
                smallest_count(counts),
                budget - upgraded_total(all, order, budget, n),
            ) == largest_count(counts)
        }),
    decreases n,
{
    lemma_level_totals_grow(all, order, 0, all.len());
    lemma_all_taken(all, order, budget, all.len());
    if n > 0 {
        let m = (n - 1) as nat;
        lemma_all_upgraded(all, order, budget, m);
        lemma_all_taken(all, order, budget, m);
    }
    if n < all.len() {
        lemma_level_totals_grow(all, order, (n + 1) as nat, all.len());
        let counts = all[order[n as int] as int].counts;
        assert(counts.len() > 0);
        lemma_smallest_count(counts);
        lemma_largest_count(counts);
        assert(largest_total(all, order, (n + 1) as nat) == largest_total(all, order, n)
            + largest_count(counts));
        assert(smallest_total(all, order, (n + 1) as nat) == smallest_total(all, order, n)
            + smallest_count(counts));
        let room = budget - upgraded_total(all, order, budget, n);
        lemma_best_upgrade(counts, smallest_count(counts), room);
        let k = choose|k: int|
            0 <= k < counts.len() && #[trigger] counts[k] == largest_count(counts);
        assert(counts[k] - smallest_count(counts) <= room);
    }
}

/// A selection lists every candidate that got something.
pub proof fn lemma_granted_is_listed(
    all: Seq<LodCandidate>,
    order: Seq<usize>,
    budget: int,
    i: int,
    n: nat,
)
    requires
        0 <= i < n,
        granted(all, order, budget, position(priority_keys(all), i) as nat) is Some,
    ensures
        granted_list(all, order, budget, n).contains(
            (
                all[i].chunk as u32,
                granted(all, order, budget, position(priority_keys(all), i) as nat)->0,
            ),
        ),
    decreases n,
{
    let prev = granted_list(all, order, budget, (n - 1) as nat);
    let list = granted_list(all, order, budget, n);
    let item = (
        all[i].chunk as u32,
        granted(all, order, budget, position(priority_keys(all), i) as nat)->0,
    );
    if i == n - 1 {
        assert(list[list.len() - 1] == item);
    } else {
        lemma_granted_is_listed(all, order, budget, i, (n - 1) as nat);
        let k = choose|k: int| 0 <= k < prev.len() && prev[k] == item;
        assert(list[k] == item);
    }
}

/// Where the budget reaches for the smallest level of every chunk in view, a selection holds every
/// one of them: levels are lowered before a region is dropped.
pub proof fn selection_drops_no_region(
    all: Seq<LodCandidate>,
    order: Seq<usize>,
    budget: int,
    i: int,
)
    requires
        0 <= i < all.len(),
        is_order(priority_keys(all), order),
        forall|j: int| 0 <= j < all.len() ==> (#[trigger] all[j]).counts.len() > 0,
        smallest_total(all, order, all.len()) <= budget,
    ensures
        exists|count: u32| #[trigger]
            all[i].counts.contains(count) && granted_list(
                all,
                order,
                budget,
                all.len(),
            ).contains((all[i].chunk as u32, count)),
{
    lemma_position_in_order(priority_keys(all), order, i);
    let p = position(priority_keys(all), i) as nat;
    assert(order[p as int] == i);
    let counts = all[i].counts;
    assert(counts.len() > 0);
    lemma_level_totals_grow(all, order, 0, all.len());
    lemma_all_taken(all, order, budget, p);
    lemma_totals_within_budget(all, order, budget, p);
    lemma_smallest_count(counts);
    lemma_best_upgrade(
        counts,
        smallest_count(counts),
        budget - upgraded_total(all, order, budget, p),
    );
    lemma_granted_is_listed(all, order, budget, i, all.len());
    let count = granted(all, order, budget, p)->0;
    let k = choose|k: int| 0 <= k < counts.len() && #[trigger] counts[k] == count;
    assert(counts[k] == count);
    assert(counts.contains(count));
}

/// Where the budget reaches for the largest level of every chunk in view, a selection holds every
/// one of them in full.
pub proof fn ample_selection_is_full(
    all: Seq<LodCandidate>,
    order: Seq<usize>,
    budget: int,
    i: int,
)
    requires
        0 <= i < all.len(),
        is_order(priority_keys(all), order),
        forall|j: int| 0 <= j < all.len() ==> (#[trigger] all[j]).counts.len() > 0,
        largest_total(all, order, all.len()) <= budget,
    ensures
        granted_list(all, order, budget, all.len()).contains(
            (all[i].chunk as u32, largest_count(all[i].counts) as u32),
        ),
{
    lemma_position_in_order(priority_keys(all), order, i);
    let p = position(priority_keys(all), i) as nat;
    assert(order[p as int] == i);
    lemma_all_upgraded(all, order, budget, p);
    lemma_all_taken(all, order, budget, p);
    lemma_granted_is_listed(all, order, budget, i, all.len());
}

/// A selection names every chunk at most once, in ascending order, and gives it the splat count
/// of one of its levels of detail.
pub proof fn selection_names_levels(
    all: Seq<LodCandidate>,
    order: Seq<usize>,
    budget: int,
    n: nat,
)
    requires
        0 <= budget <= u32::MAX,
        n <= all.len(),
        is_order(priority_keys(all), order),
        forall|i: int| 0 <= i < all.len() ==> (#[trigger] all[i]).counts.len() > 0,
        forall|i: int| 0 <= i < all.len() ==> 0 <= (#[trigger] all[i]).chunk <= u32::MAX,
        forall|i: int, j: int|
            0 <= i < j < all.len() ==> (#[trigger] all[i]).chunk < (#[trigger] all[j]).chunk,
    ensures
        ({
            let list = granted_list(all, order, budget, n);
            &&& forall|a: int, b: int|
                0 <= a < b < list.len() ==> (#[trigger] list[a]).0 < (#[trigger] list[b]).0
            &&& forall|a: int| 0 <= a < list.len() ==> names_level(all, n as int, #[trigger] list[a])
        }),
    decreases n,
{
    if n > 0 {
        let m = (n - 1) as nat;
        selection_names_levels(all, order, budget, m);
        let prev = granted_list(all, order, budget, m);
        let list = granted_list(all, order, budget, n);
        lemma_position_in_order(priority_keys(all), order, m as int);
        let p = position(priority_keys(all), m as int) as nat;
        assert(order[p as int] == m);
        let counts = all[m as int].counts;
        assert(counts.len() > 0);
        lemma_totals_within_budget(all, order, budget, p);
        lemma_smallest_count(counts);
        lemma_best_upgrade(
            counts,
            smallest_count(counts),
            budget - upgraded_total(all, order, budget, p),
        );
        assert forall|a: int| 0 <= a < list.len() implies names_level(
            all,
            n as int,
            #[trigger] list[a],
        ) by {
            if a < prev.len() {
                assert(names_level(all, m as int, prev[a]));
                let i = choose|i: int|
                    0 <= i < m && (#[trigger] all[i]).chunk == prev[a].0 && all[i].counts.contains(
                        prev[a].1,
                    );
                assert(0 <= i < n && all[i].chunk == list[a].0 && all[i].counts.contains(list[a].1));
            } else {
                let given = list[a].1;
                let k = choose|k: int| 0 <= k < counts.len() && #[trigger] counts[k] == given;
                assert(counts[k] == given);
                assert(all[m as int].chunk == list[a].0);
            }
        }
        assert forall|a: int, b: int| 0 <= a < b < list.len() implies (#[trigger] list[a]).0 < (
        #[trigger] list[b]).0 by {
            if b == prev.len() {
                assert(names_level(all, m as int, prev[a]));
                let i = choose|i: int|
                    0 <= i < m && (#[trigger] all[i]).chunk == prev[a].0 && all[i].counts.contains(
                        prev[a].1,
                    );
                assert(all[i].chunk < all[m as int].chunk);
            }
        }
    }
}

/// Whether an item of a selection gives one of the first `n` candidates one of its levels.
pub open spec fn names_level(all: Seq<LodCandidate>, n: int, item: (u32, u32)) -> bool {
    exists|i: int|
        0 <= i < n && (#[trigger] all[i]).chunk == item.0 && all[i].counts.contains(item.1)
}

} // verus!
