//! Which chunks of a large cloud are active, and how their pages come in.

use crate::chunking::{
    covered_chunks, nearest_chunks, select_chunks, select_chunks_coverage, ChunkEntry, ChunkTable,
};
use crate::cloud_settings::{
    at_least, default_settings, raise, ChunkSelection, GaussianSplatCloudSettings,
};
use crate::floats::{F32, ZERO_BITS};
use crate::gsplat_pack::layout::{
    entry_lods, layout, least, lemma_layout_grows, lemma_lod_counts_bounds, lod_pages,
    page_limit, pages_for, placed, table_layout, with_lods, Layout,
};
use crate::gsplat_pack::selection::{selected_total, ChunkView, ViewLimits};
use crate::gsplat_pack::{GsplatPackIndex, PackChunk, PackPage};
use crate::sorting::is_order;
use crate::view_selection::{
    chunks_in_view, select_chunks_view_priority, shown_chunks, view_keys,
};
use std::collections::HashMap;
use vstd::prelude::*;
use vstd::std_specs::hash::*;

verus! {

/// How many pages stay in memory.
pub const PACK_PAGE_CACHE_LIMIT: usize = 64;

/// The pages that were read last, by page index. The page used longest ago goes first.
pub struct PageCacheState<T> {
    pages: HashMap<u32, Vec<T>>,
    order: Vec<u32>,
}

/// An order without one page.
pub open spec fn without(order: Seq<u32>, page: u32) -> Seq<u32> {
    order.filter(|p: u32| p != page)
}

/// An order after a page was used.
pub open spec fn used(order: Seq<u32>, page: u32) -> Seq<u32> {
    without(order, page).push(page)
}

impl<T> PageCacheState<T> {
    /// The pages from the one used longest ago to the one used last.
    pub closed spec fn order(&self) -> Seq<u32> {
        self.order@
    }

    /// What the pages hold.
    pub closed spec fn pages(&self) -> Map<u32, Seq<T>> {
        self.pages@.map_values(|values: Vec<T>| values@)
    }

    /// Every page stands in the order once, and there are not more than the limit.
    pub open spec fn well_formed(&self) -> bool {
        &&& self.order().no_duplicates()
        &&& self.order().to_set() == self.pages().dom()
        &&& self.order().len() <= PACK_PAGE_CACHE_LIMIT
    }

    /// A cache without pages.
    pub fn new() -> (cache: Self)
        ensures
            cache.well_formed(),
            cache.order().len() == 0,
            cache.pages() == Map::<u32, Seq<T>>::empty(),
    {
        broadcast use group_hash_axioms;

        let cache = PageCacheState { pages: HashMap::new(), order: Vec::new() };
        proof {
            assert(cache.pages() =~= Map::<u32, Seq<T>>::empty());
            assert(cache.order().to_set() =~= cache.pages().dom());
        }
        cache
    }

    /// What a page holds, if it is here.
    pub fn get(&self, page: u32) -> (values: Option<&Vec<T>>)
        ensures
            match values {
                Some(values) => self.pages().contains_key(page) && values@ == self.pages()[page],
                None => !self.pages().contains_key(page),
            },
    {
        broadcast use group_hash_axioms;

        self.pages.get(&page)
    }

    /// Marks a page as the one used last. Says whether it is here.
    pub fn touch(&mut self, page: u32) -> (present: bool)
        requires
            old(self).well_formed(),
        ensures
            final(self).well_formed(),
            final(self).pages() == old(self).pages(),
            present == old(self).pages().contains_key(page),
            final(self).order() == (if present {
                used(old(self).order(), page)
            } else {
                old(self).order()
            }),
    {
        broadcast use group_hash_axioms;

        if !self.pages.contains_key(&page) {
            assert(!self.pages().contains_key(page));
            return false;
        }
        assert(self.pages().contains_key(page));
        let mut order: Vec<u32> = remove_page(&self.order, page);
        order.push(page);
        self.order = order;
        proof {
            lemma_without(old(self).order(), page);
            lemma_used(old(self).order(), page);
            assert(old(self).order().to_set().contains(page));
            assert(self.order().to_set() =~= self.pages().dom());
        }
        true
    }

    /// Puts a page in, as the one used last. Where there are too many pages then, the one used
    /// longest ago leaves.
    pub fn insert(&mut self, page: u32, values: Vec<T>)
        requires
            old(self).well_formed(),
        ensures
            final(self).well_formed(),
            ({
                let order = used(old(self).order(), page);
                let pages = old(self).pages().insert(page, values@);
                if order.len() <= PACK_PAGE_CACHE_LIMIT {
                    final(self).order() == order && final(self).pages() == pages
                } else {
                    final(self).order() == order.drop_first() && final(self).pages()
                        == pages.remove(order[0])
                }
            }),
            final(self).pages().contains_key(page) && final(self).pages()[page] == values@,
            forall|p: u32|
                p != page && p != old(self).order()[0] && #[trigger] old(self).pages().contains_key(
                    p,
                ) ==> final(self).pages().contains_key(p) && final(self).pages()[p] == old(
                    self,
                ).pages()[p],
    {
        broadcast use group_hash_axioms;

        self.pages.insert(page, values);
        let mut order: Vec<u32> = remove_page(&self.order, page);
        order.push(page);
        let ghost all = order@;
        let ghost pages = old(self).pages().insert(page, values@);
        proof {
            lemma_without(old(self).order(), page);
            lemma_used(old(self).order(), page);
            assert(self.pages() =~= pages);
            assert(all.to_set() =~= pages.dom());
        }
        if order.len() > PACK_PAGE_CACHE_LIMIT {
            proof {
                lemma_without_absent(old(self).order(), page);
            }
            let oldest: u32 = order.remove(0);
            self.pages.remove(&oldest);
            proof {
                assert(order@ =~= all.drop_first());
                assert(self.pages() =~= pages.remove(oldest));
                assert(order@.no_duplicates());
                assert forall|p: u32| order@.to_set().contains(p) == pages.remove(
                    oldest,
                ).dom().contains(p) by {
                    if order@.contains(p) {
                        let i = choose|i: int| 0 <= i < order@.len() && order@[i] == p;
                        assert(all[i + 1] == p);
                        assert(all.to_set().contains(p));
                        assert(all[0] == oldest);
                    }
                    if all.contains(p) && p != oldest {
                        let i = choose|i: int| 0 <= i < all.len() && all[i] == p;
                        assert(order@[i - 1] == p);
                    }
                }
                assert(order@.to_set() =~= self.pages().dom());
            }
        }
        self.order = order;
    }
}

/// An order without one page.
fn remove_page(order: &Vec<u32>, page: u32) -> (rest: Vec<u32>)
    ensures
        rest@ == without(order@, page),
{
    let mut rest: Vec<u32> = Vec::new();
    let mut i: usize = 0;
    assert(without(order@.take(0), page) =~= Seq::empty()) by {
        reveal(Seq::filter);
    }
    while i < order.len()
        invariant
            i <= order@.len(),
            rest@ == without(order@.take(i as int), page),
        decreases order@.len() - i,
    {
        assert(order@.take(i + 1).drop_last() =~= order@.take(i as int));
        proof {
            reveal(Seq::filter);
        }
        if order[i] != page {
            rest.push(order[i]);
        }
        i = i + 1;
    }
    assert(order@.take(order@.len() as int) =~= order@);
    rest
}

/// Taking a page out of an order leaves the others, each once.
proof fn lemma_without(order: Seq<u32>, page: u32)
    requires
        order.no_duplicates(),
    ensures
        without(order, page).no_duplicates(),
        !without(order, page).contains(page),
        forall|p: u32| p != page ==> without(order, page).contains(p) == order.contains(p),
        without(order, page).len() == (if order.contains(page) {
            order.len() - 1
        } else {
            order.len() as int
        }),
    decreases order.len(),
{
    reveal(Seq::filter);
    if order.len() > 0 {
        let rest = order.drop_last();
        lemma_without(rest, page);
        let kept = without(rest, page);
        assert(order =~= rest.push(order.last()));
        assert forall|p: u32| order.contains(p) == (rest.contains(p) || p == order.last()) by {
            if rest.contains(p) {
                let i = choose|i: int| 0 <= i < rest.len() && rest[i] == p;
                assert(order[i] == p);
            }
            assert(order[order.len() - 1] == order.last());
            if order.contains(p) && p != order.last() {
                let i = choose|i: int| 0 <= i < order.len() && order[i] == p;
                assert(rest[i] == p);
            }
        }
        assert(!rest.contains(order.last()));
        if order.last() != page {
            assert(without(order, page) =~= kept.push(order.last()));
            assert(!kept.contains(order.last()));
            assert forall|p: u32| p != page implies without(order, page).contains(p)
                == order.contains(p) by {
                if kept.contains(p) {
                    let i = choose|i: int| 0 <= i < kept.len() && kept[i] == p;
                    assert(without(order, page)[i] == p);
                }
                assert(without(order, page)[kept.len() as int] == order.last());
            }
        } else {
            assert(without(order, page) =~= kept);
        }
    }
}

/// A page that was used stands in the order once, with the others.
proof fn lemma_used(order: Seq<u32>, page: u32)
    requires
        order.no_duplicates(),
    ensures
        used(order, page).no_duplicates(),
        used(order, page).to_set() == order.to_set().insert(page),
        used(order, page).len() == (if order.contains(page) {
            order.len()
        } else {
            order.len() + 1
        }),
{
    lemma_without(order, page);
    let rest = without(order, page);
    let all = used(order, page);
    assert forall|p: u32| all.contains(p) == (order.contains(p) || p == page) by {
        assert(all[rest.len() as int] == page);
        if rest.contains(p) {
            let i = choose|i: int| 0 <= i < rest.len() && rest[i] == p;
            assert(all[i] == p);
        }
    }
    assert(all.to_set() =~= order.to_set().insert(page));
}

/// Where a page is new, using it leaves the others where they are.
proof fn lemma_without_absent(order: Seq<u32>, page: u32)
    requires
        !order.contains(page),
    ensures
        without(order, page) == order,
    decreases order.len(),
{
    reveal(Seq::filter);
    if order.len() > 0 {
        let rest = order.drop_last();
        assert forall|i: int| 0 <= i < rest.len() implies rest[i] != page by {
            assert(order[i] == rest[i]);
        }
        lemma_without_absent(rest, page);
        assert(order[order.len() - 1] != page);
        assert(order =~= rest.push(order.last()));
    }
}

/// A page to read, and how many of its records to take.
#[derive(Clone, Copy, Debug, PartialEq, Eq, Structural)]
pub struct PageTake {
    pub page_index: u32,
    pub count: u32,
}

/// What to take from the pages of a chunk from `offset` on, in page order, until `remaining`
/// records are there. A page that is not in the table is passed over.
pub open spec fn chunk_takes(
    pages: Seq<PackPage>,
    first_page: int,
    page_count: int,
    offset: int,
    remaining: int,
) -> Seq<PageTake>
    decreases page_count - offset,
{
    if offset >= page_count || remaining <= 0 {
        Seq::empty()
    } else {
        let at = first_page + offset;
        if at < pages.len() && at <= u32::MAX {
            let count = least(remaining, pages[at].count as int);
            seq![PageTake { page_index: at as u32, count: count as u32 }] + chunk_takes(
                pages,
                first_page,
                page_count,
                offset + 1,
                remaining - count,
            )
        } else {
            chunk_takes(pages, first_page, page_count, offset + 1, remaining)
        }
    }
}

/// What to take for one item of a selection: the first records of its chunk, as many as asked for
/// and there are. An item whose chunk is missing takes nothing.
pub open spec fn item_takes(
    chunks: Seq<PackChunk>,
    pages: Seq<PackPage>,
    item: (u32, u32),
) -> Seq<PageTake> {
    if item.0 < chunks.len() {
        let chunk = chunks[item.0 as int];
        chunk_takes(
            pages,
            chunk.first_page as int,
            chunk.page_count as int,
            0,
            least(item.1 as int, chunk.entry.count as int),
        )
    } else {
        Seq::empty()
    }
}

/// What to take for the first `n` items of a selection.
pub open spec fn active_takes(
    chunks: Seq<PackChunk>,
    pages: Seq<PackPage>,
    active: Seq<(u32, u32)>,
    n: nat,
) -> Seq<PageTake>
    decreases n,
{
    if n == 0 {
        Seq::empty()
    } else {
        active_takes(chunks, pages, active, (n - 1) as nat) + item_takes(
            chunks,
            pages,
            active[n - 1],
        )
    }
}

/// Appends what to take for one chunk.
fn push_takes(
    takes: &mut Vec<PageTake>,
    pages: &Vec<PackPage>,
    first_page: u32,
    page_count: u32,
    wanted: u32,
)
    ensures
        final(takes)@ == old(takes)@ + chunk_takes(
            pages@,
            first_page as int,
            page_count as int,
            0,
            wanted as int,
        ),
{
    let ghost before = takes@;
    let ghost all = chunk_takes(pages@, first_page as int, page_count as int, 0, wanted as int);
    let mut remaining: u32 = wanted;
    let mut offset: u32 = 0;
    assert(takes@ + all =~= before + all);
    while offset < page_count && remaining > 0
        invariant
            offset <= page_count,
            takes@ + chunk_takes(
                pages@,
                first_page as int,
                page_count as int,
                offset as int,
                remaining as int,
            ) == before + all,
        decreases page_count - offset,
    {
        let at: u64 = first_page as u64 + offset as u64;
        let ghost rest = chunk_takes(
            pages@,
            first_page as int,
            page_count as int,
            offset as int,
            remaining as int,
        );
        if at < pages.len() as u64 && at <= u32::MAX as u64 {
            let page: PackPage = pages[at as usize];
            let count: u32 = if remaining <= page.count {
                remaining
            } else {
                page.count
            };
            let ghost done = takes@;
            let take = PageTake { page_index: at as u32, count };
            takes.push(take);
            remaining = remaining - count;
            proof {
                let next = chunk_takes(
                    pages@,
                    first_page as int,
                    page_count as int,
                    offset + 1,
                    remaining as int,
                );
                assert(rest == seq![take] + next);
                assert(takes@ + next =~= done + rest);
            }
        }
        offset = offset + 1;
    }
    assert(chunk_takes(
        pages@,
        first_page as int,
        page_count as int,
        offset as int,
        remaining as int,
    ) =~= Seq::empty());
    assert(takes@ =~= before + all);
}

/// The pages to read for an active set, in order, and how many records to take from each.
pub fn plan_gather(pack: &GsplatPackIndex, active: &[(u32, u32)]) -> (takes: Vec<PageTake>)
    ensures
        takes@ == active_takes(pack.chunks@, pack.pages@, active@, active@.len()),
{
    let mut takes: Vec<PageTake> = Vec::new();
    let mut i: usize = 0;
    while i < active.len()
        invariant
            i <= active@.len(),
            takes@ == active_takes(pack.chunks@, pack.pages@, active@, i as nat),
        decreases active@.len() - i,
    {
        let (chunk_index, lod): (u32, u32) = active[i];
        let ghost done = takes@;
        if (chunk_index as usize) < pack.chunks.len() {
            let chunk: &PackChunk = &pack.chunks[chunk_index as usize];
            let wanted: u32 = if lod <= chunk.entry.count {
                lod
            } else {
                chunk.entry.count
            };
            push_takes(&mut takes, &pack.pages, chunk.first_page, chunk.page_count, wanted);
        } else {
            assert(done + item_takes(pack.chunks@, pack.pages@, active@[i as int]) =~= done);
        }
        i = i + 1;
    }
    takes
}

/// The part of a page that a take stands for: its first records, where the page holds them all.
pub open spec fn page_piece<T>(values: Seq<T>, count: int, unit: int) -> Seq<T> {
    if count * unit <= values.len() {
        values.take(count * unit)
    } else {
        Seq::empty()
    }
}

/// What the first `n` takes add up to, given the page that each was handed.
pub open spec fn joined<T>(takes: Seq<PageTake>, handed: Seq<Seq<T>>, unit: int, n: nat) -> Seq<T>
    decreases n,
{
    if n == 0 {
        Seq::empty()
    } else {
        joined(takes, handed, unit, (n - 1) as nat) + page_piece(
            handed[n - 1],
            takes[n - 1].count as int,
            unit,
        )
    }
}

/// A gather on its way: it names the page that it needs next, and takes what it is handed.
pub struct PageGather<T> {
    takes: Vec<PageTake>,
    unit: usize,
    at: usize,
    out: Vec<T>,
    handed: Ghost<Seq<Seq<T>>>,
}

impl<T: Copy> PageGather<T> {
    /// What is taken, in order.
    pub closed spec fn takes(&self) -> Seq<PageTake> {
        self.takes@
    }

    /// The values per record.
    pub closed spec fn unit(&self) -> int {
        self.unit as int
    }

    /// The pages handed over so far.
    pub closed spec fn handed(&self) -> Seq<Seq<T>> {
        self.handed@
    }

    /// What has been gathered.
    pub closed spec fn gathered(&self) -> Seq<T> {
        self.out@
    }

    /// What has been gathered is what the pages handed over add up to.
    pub closed spec fn well_formed(&self) -> bool {
        &&& self.at == self.handed@.len()
        &&& self.at <= self.takes@.len()
        &&& self.out@ == joined(self.takes@, self.handed@, self.unit as int, self.at as nat)
    }

    /// Starts to gather.
    pub fn start(takes: Vec<PageTake>, unit: usize) -> (gather: Self)
        ensures
            gather.well_formed(),
            gather.takes() == takes@,
            gather.unit() == unit,
            gather.handed().len() == 0,
    {
        PageGather { takes, unit, at: 0, out: Vec::new(), handed: Ghost(Seq::empty()) }
    }

    /// The page that is needed next; none once everything is there.
    pub fn next_page(&self) -> (page: Option<u32>)
        requires
            self.well_formed(),
        ensures
            page == (if self.handed().len() < self.takes().len() {
                Some(self.takes()[self.handed().len() as int].page_index)
            } else {
                None
            }),
    {
        if self.at < self.takes.len() {
            Some(self.takes[self.at].page_index)
        } else {
            None
        }
    }

    /// Takes the page that was asked for; without one being needed, nothing happens.
    pub fn hand_over(&mut self, values: &Vec<T>)
        requires
            old(self).well_formed(),
        ensures
            final(self).well_formed(),
            final(self).takes() == old(self).takes(),
            final(self).unit() == old(self).unit(),
            final(self).handed() == (if old(self).handed().len() < old(self).takes().len() {
                old(self).handed().push(values@)
            } else {
                old(self).handed()
            }),
    {
        if self.at < self.takes.len() {
            let count: u32 = self.takes[self.at].count;
            let ghost before = self.out@;
            let ghost n = self.at as nat;
            let ghost handed = self.handed@.push(values@);
            append_piece(&mut self.out, values, count, self.unit);
            self.handed = Ghost(handed);
            self.at = self.at + 1;
            proof {
                lemma_joined_prefix(self.takes@, old(self).handed@, handed, self.unit as int, n);
            }
        }
    }

    /// Ends the gather. What was gathered is what the pages handed over add up to.
    pub fn finish(self) -> (out: Vec<T>)
        requires
            self.well_formed(),
        ensures
            out@ == joined(self.takes(), self.handed(), self.unit(), self.handed().len()),
    {
        self.out
    }
}

/// Appends the part of a page that a take stands for.
fn append_piece<T: Copy>(out: &mut Vec<T>, values: &Vec<T>, count: u32, unit: usize)
    ensures
        final(out)@ == old(out)@ + page_piece(values@, count as int, unit as int),
{
    assert(0 <= count * unit <= 0xffff_ffff * 0xffff_ffff_ffff_ffff) by (nonlinear_arith)
        requires
            0 <= count <= 0xffff_ffff,
            0 <= unit <= 0xffff_ffff_ffff_ffff,
    ;
    let end: u128 = count as u128 * unit as u128;
    let ghost before = out@;
    if end > values.len() as u128 {
        assert(out@ =~= before + Seq::empty());
        return;
    }
    let end: usize = end as usize;
    let mut i: usize = 0;
    while i < end
        invariant
            i <= end,
            end <= values@.len(),
            out@ == before + values@.take(i as int),
        decreases end - i,
    {
        out.push(values[i]);
        i = i + 1;
        assert(out@ =~= before + values@.take(i as int));
    }
}

/// Handing over one more page leaves what was gathered before.
proof fn lemma_joined_prefix<T>(
    takes: Seq<PageTake>,
    a: Seq<Seq<T>>,
    b: Seq<Seq<T>>,
    unit: int,
    n: nat,
)
    requires
        n <= a.len() <= b.len(),
        forall|i: int| 0 <= i < a.len() ==> a[i] == b[i],
    ensures
        joined(takes, a, unit, n) == joined(takes, b, unit, n),
    decreases n,
{
    if n > 0 {
        lemma_joined_prefix(takes, a, b, unit, (n - 1) as nat);
    }
}

/// The records that takes add up to.
pub open spec fn take_total(takes: Seq<PageTake>) -> int
    decreases takes.len(),
{
    if takes.len() == 0 {
        0
    } else {
        takes[0].count + take_total(takes.drop_first())
    }
}

/// The pages of further levels come behind those that are there, and the first level's first.
proof fn lemma_with_lods_pages(
    base: Layout,
    chunk: int,
    counts: Seq<u32>,
    m: nat,
    page_splats: int,
)
    requires
        m <= counts.len(),
    ensures
        ({
            let next = with_lods(base, chunk, counts, m, page_splats);
            &&& next.chunks == base.chunks
            &&& next.pages.len() >= base.pages.len()
            &&& forall|i: int| 0 <= i < base.pages.len() ==> next.pages[i] == base.pages[i]
            &&& m >= 1 ==> {
                let first = lod_pages(chunk, base.lods.len() as int, counts[0] as int, page_splats);
                &&& next.pages.len() >= base.pages.len() + first.len()
                &&& forall|p: int|
                    0 <= p < first.len() ==> next.pages[base.pages.len() + p] == first[p]
            }
        }),
    decreases m,
{
    if m > 0 {
        lemma_with_lods_pages(base, chunk, counts, (m - 1) as nat, page_splats);
    }
}

/// A layout keeps, for every chunk, the pages of its finest level first, in order.
proof fn lemma_finest_level(entries: Seq<ChunkEntry>, n: nat, c: int, page_splats: int)
    requires
        0 <= c < n <= entries.len(),
        page_splats >= 1,
        entries[c].count >= 1,
        layout(entries, n, page_splats).pages.len() <= u32::MAX,
    ensures
        ({
            let plan = layout(entries, n, page_splats);
            let chunk = plan.chunks[c];
            let count = entries[c].count as int;
            &&& plan.chunks.len() == n
            &&& chunk.entry == entries[c]
            &&& chunk.page_count >= pages_for(count, page_splats)
            &&& chunk.first_page + pages_for(count, page_splats) <= plan.pages.len()
            &&& forall|p: int|
                0 <= p < pages_for(count, page_splats) ==> (#[trigger] plan.pages[chunk.first_page
                    + p]).count == least(page_splats, count - p * page_splats) as u32
        }),
    decreases n,
{
    let prev = layout(entries, (n - 1) as nat, page_splats);
    let plan = layout(entries, n, page_splats);
    let counts = entry_lods(entries[n - 1]);
    lemma_layout_grows(entries, (n - 1) as nat, n, page_splats);
    lemma_layout_grows(entries, n, n, page_splats);
    lemma_with_lods_pages(prev, n - 1, counts, counts.len(), page_splats);
    lemma_lod_counts_bounds(entries[n - 1].count as int, 4);
    let next = with_lods(prev, n - 1, counts, counts.len(), page_splats);
    assert(plan.pages == next.pages);
    if c == n - 1 {
        let first = lod_pages(n - 1, prev.lods.len() as int, counts[0] as int, page_splats);
        assert(counts[0] == entries[c].count);
        assert(plan.chunks[c].first_page == prev.pages.len());
        let total = pages_for(entries[c].count as int, page_splats);
        assert(total >= 0) by (nonlinear_arith)
            requires
                total == (entries[c].count as int + page_splats - 1) / page_splats,
                page_splats >= 1,
        ;
        assert(first.len() == total);
        assert forall|p: int| 0 <= p < total implies (#[trigger] plan.pages[plan.chunks[c].first_page
            + p]).count == least(page_splats, entries[c].count - p * page_splats) as u32 by {
            assert(next.pages[prev.pages.len() + p] == first[p]);
        }
    } else {
        lemma_finest_level(entries, (n - 1) as nat, c, page_splats);
        assert(plan.chunks[c] == prev.chunks[c]);
        let chunk = plan.chunks[c];
        let total = pages_for(entries[c].count as int, page_splats);
        assert forall|p: int| 0 <= p < total implies (#[trigger] plan.pages[chunk.first_page
            + p]).count == least(page_splats, entries[c].count - p * page_splats) as u32 by {
            assert(prev.pages[chunk.first_page + p] == plan.pages[chunk.first_page + p]);
        }
    }
}

/// Along the pages of the finest level, the takes reach the records that are wanted.
proof fn lemma_takes_along_level(
    pages: Seq<PackPage>,
    first_page: int,
    page_count: int,
    count: int,
    page_splats: int,
    p: int,
    wanted: int,
)
    requires
        page_splats >= 1,
        0 <= p,
        0 <= first_page,
        0 <= wanted <= count <= u32::MAX,
        page_count >= pages_for(count, page_splats),
        first_page + pages_for(count, page_splats) <= pages.len() <= u32::MAX,
        forall|q: int|
            0 <= q < pages_for(count, page_splats) ==> (#[trigger] pages[first_page + q]).count
                == least(page_splats, count - q * page_splats) as u32,
    ensures
        ({
            let left = wanted - p * page_splats;
            let takes = chunk_takes(pages, first_page, page_count, p, left);
            &&& take_total(takes) == (if left > 0 {
                left
            } else {
                0
            })
            &&& forall|k: int|
                0 <= k < takes.len() ==> #[trigger] takes[k] == (PageTake {
                    page_index: (first_page + p + k) as u32,
                    count: least(page_splats, left - k * page_splats) as u32,
                })
        }),
    decreases wanted - p * page_splats,
{
    let left = wanted - p * page_splats;
    let takes = chunk_takes(pages, first_page, page_count, p, left);
    if left > 0 {
        crate::gsplat_pack::layout::lemma_page_within(count, page_splats, p);
        let got = pages[first_page + p].count as int;
        assert(got == least(page_splats, count - p * page_splats));
        let taken = least(left, got);
        assert((p + 1) * page_splats == p * page_splats + page_splats) by (nonlinear_arith);
        let rest = chunk_takes(pages, first_page, page_count, p + 1, left - taken);
        assert(takes =~= seq![
            PageTake { page_index: (first_page + p) as u32, count: taken as u32 },
        ] + rest);
        assert(takes.drop_first() =~= rest);
        if left <= page_splats {
            assert(taken == left);
            assert(rest =~= Seq::empty());
            assert(take_total(rest) == 0);
            assert forall|k: int| 0 <= k < takes.len() implies #[trigger] takes[k] == (PageTake {
                page_index: (first_page + p + k) as u32,
                count: least(page_splats, left - k * page_splats) as u32,
            }) by {
                assert(k * page_splats == 0) by (nonlinear_arith)
                    requires
                        k == 0,
                ;
            }
        } else {
            assert(taken == page_splats);
            lemma_takes_along_level(
                pages,
                first_page,
                page_count,
                count,
                page_splats,
                p + 1,
                wanted,
            );
            assert forall|k: int| 0 <= k < takes.len() implies #[trigger] takes[k] == (PageTake {
                page_index: (first_page + p + k) as u32,
                count: least(page_splats, left - k * page_splats) as u32,
            }) by {
                if k > 0 {
                    assert(takes[k] == rest[k - 1]);
                    assert(left - page_splats - (k - 1) * page_splats == left - k * page_splats)
                        by (nonlinear_arith);
                } else {
                    assert(k * page_splats == 0) by (nonlinear_arith)
                        requires
                            k == 0,
                    ;
                }
            }
        }
    }
}

/// From a pack that was laid out here, an item of a selection gathers the first records of its
/// chunk's finest level, page after page, exactly as many as asked for and there are.
pub proof fn selection_gathers_finest_records(
    entries: Seq<ChunkEntry>,
    page_splats: u32,
    base: int,
    record_bytes: int,
    item: (u32, u32),
)
    requires
        item.0 < entries.len(),
        table_layout(entries, page_splats).pages.len() <= u32::MAX,
    ensures
        ({
            let plan = table_layout(entries, page_splats);
            let takes = item_takes(
                plan.chunks,
                placed(plan.pages, base, record_bytes),
                item,
            );
            let wanted = least(item.1 as int, entries[item.0 as int].count as int);
            &&& take_total(takes) == wanted
            &&& forall|k: int|
                0 <= k < takes.len() ==> #[trigger] takes[k] == (PageTake {
                    page_index: (plan.chunks[item.0 as int].first_page + k) as u32,
                    count: least(
                        page_limit(page_splats),
                        wanted - k * page_limit(page_splats),
                    ) as u32,
                })
        }),
{
    let c = item.0 as int;
    let ps = page_limit(page_splats);
    let plan = table_layout(entries, page_splats);
    let pages = placed(plan.pages, base, record_bytes);
    let wanted = least(item.1 as int, entries[c].count as int);
    lemma_layout_grows(entries, entries.len(), entries.len(), ps);
    if entries[c].count >= 1 {
        lemma_finest_level(entries, entries.len(), c, ps);
        let chunk = plan.chunks[c];
        assert forall|q: int| 0 <= q < pages_for(entries[c].count as int, ps) implies (
        #[trigger] pages[chunk.first_page + q]).count == least(
            ps,
            entries[c].count - q * ps,
        ) as u32 by {
            assert(plan.pages[chunk.first_page + q].count == least(
                ps,
                entries[c].count - q * ps,
            ) as u32);
        }
        assert(0 * ps == 0) by (nonlinear_arith);
        lemma_takes_along_level(
            pages,
            chunk.first_page as int,
            chunk.page_count as int,
            entries[c].count as int,
            ps,
            0,
            wanted,
        );
    } else {
        lemma_chunk_entry(entries, entries.len(), c, ps);
    }
}

/// A layout lists the chunks of its table.
proof fn lemma_chunk_entry(entries: Seq<ChunkEntry>, n: nat, c: int, page_splats: int)
    requires
        0 <= c < n <= entries.len(),
    ensures
        layout(entries, n, page_splats).chunks.len() == n,
        layout(entries, n, page_splats).chunks[c].entry == entries[c],
    decreases n,
{
    lemma_layout_grows(entries, (n - 1) as nat, n, page_splats);
    lemma_layout_grows(entries, n, n, page_splats);
    if c < n - 1 {
        lemma_chunk_entry(entries, (n - 1) as nat, c, page_splats);
    }
}

/// What of a streamed cloud changes while it is shown: the active set with what it was chosen
/// from, and the state of the worker that rebuilds it.
#[derive(Clone, Debug)]
pub struct ChunkRuntime {
    /// The highest degree of coefficients that the cloud has.
    pub sh_degree_available: i32,
    /// The active chunks, each with how many of its splats are shown.
    pub active: Vec<(u32, u32)>,
    pub last_select_pos: Option<[F32; 3]>,
    pub last_select_forward: Option<[F32; 3]>,
    pub last_budget: i32,
    pub last_view_priority_fov_degrees: F32,
    pub last_view_priority_full_distance: F32,
    pub last_view_priority_min_lod_per_chunk: i32,
    /// A rebuild is in flight.
    pub pending: bool,
    /// A rebuild was asked for while one was in flight.
    pub rebuild_queued: bool,
}

/// What the viewer and the settings are like at the moment.
#[derive(Clone, Copy, Debug, PartialEq, Eq)]
pub struct SelectionReading {
    /// Where the camera is, if there is one.
    pub camera: Option<[F32; 3]>,
    /// Where it looks, if that is known.
    pub forward: Option<[F32; 3]>,
    /// It is far enough from where the last selection saw it.
    pub moved: bool,
    /// It looks far enough from where the last selection saw it look.
    pub rotated: bool,
    pub fov_degrees: F32,
    pub full_distance: F32,
    /// The cone or its reach differs from that of the last selection.
    pub cone_changed: bool,
    pub min_lod: i32,
    pub budget: i32,
}

/// Whether a selection can be made at all: no rebuild is in flight, and the way to choose finds the
/// camera and the direction that it needs.
pub open spec fn selectable(
    runtime: ChunkRuntime,
    selection: ChunkSelection,
    reading: SelectionReading,
) -> bool {
    &&& !runtime.pending
    &&& selection == ChunkSelection::Coverage || reading.camera is Some
    &&& selection != ChunkSelection::ViewPriority || reading.forward is Some
}

/// Whether something that the selection depends on has changed: the budget, or the camera unless
/// all chunks are covered, or the direction and the cone where they count.
pub open spec fn selection_changed(
    runtime: ChunkRuntime,
    selection: ChunkSelection,
    reading: SelectionReading,
) -> bool {
    ||| reading.budget != runtime.last_budget
    ||| runtime.last_select_pos is None
    ||| selection != ChunkSelection::Coverage && reading.moved
    ||| selection == ChunkSelection::ViewPriority && (runtime.last_select_forward is None
        || reading.rotated || reading.cone_changed || reading.min_lod
        != runtime.last_view_priority_min_lod_per_chunk)
}

/// With nothing changed since the last selection, none is due.
pub proof fn still_view_selects_nothing(
    runtime: ChunkRuntime,
    selection: ChunkSelection,
    reading: SelectionReading,
)
    requires
        runtime.last_select_pos is Some,
        selection == ChunkSelection::ViewPriority ==> runtime.last_select_forward is Some,
        reading.budget == runtime.last_budget,
        reading.min_lod == runtime.last_view_priority_min_lod_per_chunk,
        !reading.moved && !reading.rotated && !reading.cone_changed,
    ensures
        !selection_changed(runtime, selection, reading),
{
}

/// Covering all chunks needs no camera, and no movement makes it choose anew.
pub proof fn coverage_ignores_the_camera(
    runtime: ChunkRuntime,
    a: SelectionReading,
    b: SelectionReading,
)
    requires
        a.budget == b.budget,
    ensures
        selectable(runtime, ChunkSelection::Coverage, a) == selectable(
            runtime,
            ChunkSelection::Coverage,
            b,
        ),
        selection_changed(runtime, ChunkSelection::Coverage, a) == selection_changed(
            runtime,
            ChunkSelection::Coverage,
            b,
        ),
{
}

/// Where a selection is made from: the camera, or the origin where there is none.
pub open spec fn seen_from(reading: SelectionReading) -> Seq<F32> {
    match reading.camera {
        Some(camera) => camera@,
        None => seq![F32 { bits: ZERO_BITS }, F32 { bits: ZERO_BITS }, F32 { bits: ZERO_BITS }],
    }
}

/// What there is to do about a worker.
#[derive(Clone, Copy, Debug, PartialEq, Eq, Structural)]
pub enum WorkerReport {
    /// It has delivered a render set.
    Delivered,
    /// It is still at work.
    Busy,
    /// It has ended without a render set.
    Ended,
}

/// What a report asks for.
#[derive(Clone, Copy, Debug, PartialEq, Eq, Structural)]
pub struct WorkerFollowUp {
    /// The render set that was delivered takes over.
    pub apply: bool,
    /// A rebuild starts.
    pub start: bool,
}

/// The two flags after a rebuild was asked for, and whether one starts.
pub open spec fn after_request(pending: bool, queued: bool) -> (bool, bool, bool) {
    if pending {
        (true, true, false)
    } else {
        (true, queued, true)
    }
}

/// The two flags after a report, and what it asks for.
pub open spec fn after_report(pending: bool, queued: bool, report: WorkerReport) -> (
    bool,
    bool,
    WorkerFollowUp,
) {
    if !pending || report == WorkerReport::Busy {
        (pending, queued, WorkerFollowUp { apply: false, start: false })
    } else {
        (queued, false, WorkerFollowUp { apply: report == WorkerReport::Delivered, start: queued })
    }
}

/// A rebuild that is asked for is never lost: it starts at once, or as soon as the one in flight
/// ends, however that ends.
pub proof fn requests_are_not_lost(pending: bool, queued: bool, report: WorkerReport)
    requires
        report != WorkerReport::Busy,
    ensures
        ({
            let (now_pending, now_queued, started) = after_request(pending, queued);
            started || after_report(now_pending, now_queued, report).2.start
        }),
{
}

/// Two rebuilds are never in flight at once: one starts only where none is, and is in flight from
/// then on.
pub proof fn one_rebuild_at_a_time(pending: bool, queued: bool, report: WorkerReport)
    ensures
        after_request(pending, queued).2 ==> !pending && after_request(pending, queued).0,
        after_report(pending, queued, report).2.start ==> report != WorkerReport::Busy
            && after_report(pending, queued, report).0,
{
}

/// What the settings of a cloud say of choosing its chunks.
#[derive(Clone, Copy, Debug, PartialEq, Eq, Structural)]
pub struct StreamSettings {
    pub selection: ChunkSelection,
    pub budget: i32,
    pub fov_degrees: F32,
    pub full_distance: F32,
    /// The splat budget of a selection by view.
    pub target: i32,
    /// The fewest splats that a chunk is shown with when it is chosen by view.
    pub min_lod: i32,
}

/// What the settings say of choosing chunks. A cloud without settings has the default ones.
pub open spec fn streamed_with(settings: Option<GaussianSplatCloudSettings>) -> StreamSettings {
    let s = match settings {
        Some(settings) => settings,
        None => default_settings(),
    };
    StreamSettings {
        selection: s.chunk_selection,
        budget: at_least(s.max_preview_splats, 0),
        fov_degrees: s.view_priority_fov_degrees,
        full_distance: s.view_priority_full_distance,
        target: at_least(s.view_priority_target_budget, 0),
        min_lod: at_least(s.view_priority_min_lod_per_chunk, 1),
    }
}

/// What the settings say of choosing chunks.
pub fn stream_settings(settings: Option<GaussianSplatCloudSettings>) -> (result: StreamSettings)
    ensures
        result == streamed_with(settings),
{
    let s: GaussianSplatCloudSettings = match settings {
        Some(settings) => settings,
        None => GaussianSplatCloudSettings::default(),
    };
    StreamSettings {
        selection: s.chunk_selection,
        budget: raise(s.max_preview_splats, 0),
        fov_degrees: s.view_priority_fov_degrees,
        full_distance: s.view_priority_full_distance,
        target: raise(s.view_priority_target_budget, 0),
        min_lod: raise(s.view_priority_min_lod_per_chunk, 1),
    }
}

/// The splat budget that a selection works with; none at all means no limit.
pub open spec fn budget_of(budget: i32) -> u32 {
    if budget <= 0 {
        u32::MAX
    } else {
        budget as u32
    }
}

/// The splat budget that a selection works with.
pub fn selection_budget(budget: i32) -> (limit: u32)
    ensures
        limit == budget_of(budget),
{
    if budget <= 0 {
        u32::MAX
    } else {
        budget as u32
    }
}

/// The splat budget of a selection by view: not above the target.
pub fn view_priority_budget(budget: i32, target: i32) -> (limit: u32)
    ensures
        limit == least(budget_of(budget) as int, at_least(target, 0) as int),
{
    let limit: u32 = selection_budget(budget);
    let target: u32 = if target < 0 {
        0
    } else {
        target as u32
    };
    if limit <= target {
        limit
    } else {
        target
    }
}

/// The fewest splats that a chunk is shown with when it is chosen by view.
pub open spec fn floor_of(min_lod: i32) -> u32 {
    at_least(min_lod, 1) as u32
}

/// Whether `selected` is what the way to choose gives for a budget. By view the budget is limited
/// by the target.
pub open spec fn is_choice(
    selection: ChunkSelection,
    table: ChunkTable,
    distances: Seq<F32>,
    views: Seq<ChunkView>,
    limits: ViewLimits,
    budget: i32,
    target: i32,
    min_lod: i32,
    selected: Seq<(u32, u32)>,
) -> bool {
    let limit = budget_of(budget) as int;
    match selection {
        ChunkSelection::Nearest => selected == nearest_chunks(
            table.entries@,
            distances,
            limit,
            table.entries@.len(),
        ),
        ChunkSelection::Coverage => selected == covered_chunks(
            table.entries@,
            limit,
            table.entries@.len(),
        ),
        ChunkSelection::ViewPriority => {
            let target_limit = least(limit, at_least(target, 0) as int);
            let all = chunks_in_view(
                table.entries@,
                views,
                limits,
                floor_of(min_lod),
                table.entries@.len(),
            );
            if target_limit == 0 || limits.full_distance.at_most(F32 { bits: ZERO_BITS }) {
                selected == Seq::<(u32, u32)>::empty()
            } else {
                exists|order: Seq<usize>| #[trigger]
                    is_order(view_keys(all), order) && selected == shown_chunks(
                        all,
                        order,
                        target_limit,
                        all.len(),
                    )
            }
        },
    }
}

/// Chooses the active chunks. `distances` and `views` say how the chunks of the table stand to the
/// viewer.
pub fn select_active(
    selection: ChunkSelection,
    table: &ChunkTable,
    distances: &Vec<F32>,
    views: &Vec<ChunkView>,
    limits: &ViewLimits,
    budget: i32,
    target: i32,
    min_lod: i32,
) -> (selected: Vec<(u32, u32)>)
    requires
        distances@.len() == table.entries@.len() <= u32::MAX,
        views@.len() == table.entries@.len(),
    ensures
        is_choice(
            selection,
            *table,
            distances@,
            views@,
            *limits,
            budget,
            target,
            min_lod,
            selected@,
        ),
        selected_total(selected@) <= budget_of(budget),
{
    match selection {
        ChunkSelection::Nearest => select_chunks(table, distances, selection_budget(budget)),
        ChunkSelection::Coverage => select_chunks_coverage(table, selection_budget(budget)),
        ChunkSelection::ViewPriority => {
            let floor: u32 = if min_lod < 1 {
                1
            } else {
                min_lod as u32
            };
            assert(floor == floor_of(min_lod));
            select_chunks_view_priority(
                table,
                views,
                limits,
                view_priority_budget(budget, target),
                floor,
            )
        },
    }
}

/// Chooses the chunks that are active before a camera has been seen. `distances` says how far each
/// chunk is from the middle of the cloud. A selection by view waits for the camera.
pub fn select_initial(settings: &StreamSettings, table: &ChunkTable, distances: &Vec<F32>) -> (
    selected: Vec<(u32, u32)>)
    requires
        distances@.len() == table.entries@.len() <= u32::MAX,
    ensures
        selected@ == (match settings.selection {
            ChunkSelection::Nearest => nearest_chunks(
                table.entries@,
                distances@,
                budget_of(settings.budget) as int,
                table.entries@.len(),
            ),
            ChunkSelection::Coverage => covered_chunks(
                table.entries@,
                budget_of(settings.budget) as int,
                table.entries@.len(),
            ),
            ChunkSelection::ViewPriority => Seq::<(u32, u32)>::empty(),
        }),
{
    let limit: u32 = selection_budget(settings.budget);
    match settings.selection {
        ChunkSelection::Nearest => select_chunks(table, distances, limit),
        ChunkSelection::Coverage => select_chunks_coverage(table, limit),
        ChunkSelection::ViewPriority => Vec::new(),
    }
}

/// Whether a cloud is streamed: it is cut into chunks, and its splats are in memory or in a pack.
pub fn is_streamed(has_table: bool, has_payload: bool, has_pack: bool) -> (result: bool)
    ensures
        result == (has_table && (has_payload || has_pack)),
{
    has_table && (has_payload || has_pack)
}

impl ChunkRuntime {
    /// The start, with an active set that no camera has been seen for.
    pub fn start(
        sh_degree_available: i32,
        active: Vec<(u32, u32)>,
        budget: i32,
        fov_degrees: F32,
        full_distance: F32,
        min_lod: i32,
    ) -> (runtime: ChunkRuntime)
        ensures
            runtime == (ChunkRuntime {
                sh_degree_available,
                active,
                last_select_pos: None,
                last_select_forward: None,
                last_budget: budget,
                last_view_priority_fov_degrees: fov_degrees,
                last_view_priority_full_distance: full_distance,
                last_view_priority_min_lod_per_chunk: min_lod,
                pending: false,
                rebuild_queued: false,
            }),
    {
        ChunkRuntime {
            sh_degree_available,
            active,
            last_select_pos: None,
            last_select_forward: None,
            last_budget: budget,
            last_view_priority_fov_degrees: fov_degrees,
            last_view_priority_full_distance: full_distance,
            last_view_priority_min_lod_per_chunk: min_lod,
            pending: false,
            rebuild_queued: false,
        }
    }

    /// Whether the active set is to be chosen anew.
    pub fn selection_due(&self, selection: ChunkSelection, reading: &SelectionReading) -> (due: bool)
        ensures
            due == (selectable(*self, selection, *reading) && selection_changed(
                *self,
                selection,
                *reading,
            )),
    {
        if self.pending {
            return false;
        }
        let coverage: bool = selection == ChunkSelection::Coverage;
        let view_priority: bool = selection == ChunkSelection::ViewPriority;
        if !coverage && reading.camera.is_none() {
            return false;
        }
        if view_priority && reading.forward.is_none() {
            return false;
        }
        let moved: bool = !coverage && reading.moved;
        let turned: bool = view_priority && (self.last_select_forward.is_none() || reading.rotated);
        let cone: bool = view_priority && (reading.cone_changed || reading.min_lod
            != self.last_view_priority_min_lod_per_chunk);
        reading.budget != self.last_budget || moved || turned || cone
            || self.last_select_pos.is_none()
    }

    /// Takes over a selection, and remembers what it was made from. Says whether it differs from
    /// the one before, so that a rebuild is to be asked for.
    pub fn adopt_selection(
        &mut self,
        selection: ChunkSelection,
        reading: &SelectionReading,
        active: Vec<(u32, u32)>,
    ) -> (differs: bool)
        ensures
            differs == (active@ != old(self).active@),
            final(self).active@ == active@,
            final(self).last_select_pos matches Some(pos) && pos@ == seen_from(*reading),
            *final(self) == (ChunkRuntime {
                active: final(self).active,
                last_select_pos: final(self).last_select_pos,
                last_select_forward: if selection == ChunkSelection::ViewPriority {
                    reading.forward
                } else {
                    old(self).last_select_forward
                },
                last_budget: reading.budget,
                last_view_priority_fov_degrees: reading.fov_degrees,
                last_view_priority_full_distance: reading.full_distance,
                last_view_priority_min_lod_per_chunk: reading.min_lod,
                ..*old(self)
            }),
    {
        let same: bool = same_selection(&self.active, &active);
        let pos: [F32; 3] = match reading.camera {
            Some(camera) => camera,
            None => [F32 { bits: ZERO_BITS }, F32 { bits: ZERO_BITS }, F32 { bits: ZERO_BITS }],
        };
        assert(pos@ =~= seen_from(*reading));
        self.last_select_pos = Some(pos);
        if selection == ChunkSelection::ViewPriority {
            self.last_select_forward = reading.forward;
        }
        self.last_budget = reading.budget;
        self.last_view_priority_fov_degrees = reading.fov_degrees;
        self.last_view_priority_full_distance = reading.full_distance;
        self.last_view_priority_min_lod_per_chunk = reading.min_lod;
        if !same {
            self.active = active;
        }
        !same
    }

    /// Asks for a rebuild. Says whether it starts now; while one is in flight, it waits for it.
    pub fn request_rebuild(&mut self) -> (start: bool)
        ensures
            ({
                let (pending, queued, started) = after_request(
                    old(self).pending,
                    old(self).rebuild_queued,
                );
                &&& start == started
                &&& *final(self) == (ChunkRuntime { pending, rebuild_queued: queued, ..*old(self) })
            }),
    {
        if self.pending {
            self.rebuild_queued = true;
            return false;
        }
        self.pending = true;
        true
    }

    /// Takes note of a worker's report. What was asked for meanwhile starts when the worker is
    /// done.
    pub fn poll(&mut self, report: WorkerReport) -> (follow_up: WorkerFollowUp)
        ensures
            ({
                let (pending, queued, asked) = after_report(
                    old(self).pending,
                    old(self).rebuild_queued,
                    report,
                );
                &&& follow_up == asked
                &&& *final(self) == (ChunkRuntime { pending, rebuild_queued: queued, ..*old(self) })
            }),
    {
        if !self.pending || report == WorkerReport::Busy {
            return WorkerFollowUp { apply: false, start: false };
        }
        let start: bool = self.rebuild_queued;
        self.pending = start;
        self.rebuild_queued = false;
        WorkerFollowUp { apply: report == WorkerReport::Delivered, start }
    }
}

/// Whether two selections are the same.
fn same_selection(a: &Vec<(u32, u32)>, b: &Vec<(u32, u32)>) -> (same: bool)
    ensures
        same == (a@ == b@),
{
    if a.len() != b.len() {
        return false;
    }
    let mut i: usize = 0;
    while i < a.len()
        invariant
            i <= a@.len() == b@.len(),
            forall|j: int| 0 <= j < i ==> a@[j] == b@[j],
        decreases a@.len() - i,
    {
        if a[i].0 != b[i].0 || a[i].1 != b[i].1 {
            assert(a@[i as int] != b@[i as int]);
            return false;
        }
        i = i + 1;
    }
    assert(a@ =~= b@);
    true
}

} // verus!
