//! Where everything in a pack goes: levels of detail, pages, offsets.

use crate::chunking::{ChunkEntry, ChunkTable, POINT_STRIDE_FLOATS};
use crate::gsplat_pack::{
    max_sh_degree_for_stride, packed_record_bytes, sh_count, PackChunk, PackError, PackNodeLod,
    PackPage, DEFAULT_LOD_LEVELS,
};
use vstd::arithmetic::div_mod::lemma_fundamental_div_mod_converse;
use vstd::prelude::*;

verus! {

/// The smaller of two integers.
pub open spec fn least(a: int, b: int) -> int {
    if a <= b {
        a
    } else {
        b
    }
}

/// The splat counts of the levels of detail of a chunk: all its splats, then half of them rounded
/// up, and so on, until one splat or the last level is reached.
pub open spec fn lod_counts(count: int, levels: nat) -> Seq<u32>
    decreases levels,
{
    if count <= 0 || levels == 0 {
        Seq::empty()
    } else if count == 1 {
        seq![1]
    } else {
        seq![count as u32] + lod_counts((count + 1) / 2, (levels - 1) as nat)
    }
}

/// The levels that `max_levels` asks for: at least one.
pub open spec fn level_limit(max_levels: u32) -> nat {
    if max_levels == 0 {
        1
    } else {
        max_levels as nat
    }
}

/// The number of pages of `page_splats` records that hold `count` records.
pub open spec fn pages_for(count: int, page_splats: int) -> int {
    (count + page_splats - 1) / page_splats
}

/// The pages of one level of detail, not yet placed in the file.
pub open spec fn lod_pages(chunk: int, lod: int, count: int, page_splats: int) -> Seq<PackPage> {
    Seq::new(
        pages_for(count, page_splats) as nat,
        |p: int|
            PackPage {
                chunk_index: chunk as u32,
                lod_index: lod as u32,
                start_in_lod: (p * page_splats) as u32,
                count: least(page_splats, count - p * page_splats) as u32,
                byte_offset: 0,
                byte_len: 0,
            },
    )
}

/// The chunks, levels of detail and pages of a pack.
#[verifier::ext_equal]
pub ghost struct Layout {
    pub chunks: Seq<PackChunk>,
    pub lods: Seq<PackNodeLod>,
    pub pages: Seq<PackPage>,
}

/// The layout after the first `m` levels of a further chunk.
pub open spec fn with_lods(
    base: Layout,
    chunk: int,
    counts: Seq<u32>,
    m: nat,
    page_splats: int,
) -> Layout
    decreases m,
{
    if m == 0 {
        base
    } else {
        let prev = with_lods(base, chunk, counts, (m - 1) as nat, page_splats);
        let count = counts[m - 1];
        let added = lod_pages(chunk, prev.lods.len() as int, count as int, page_splats);
        Layout {
            chunks: prev.chunks,
            lods: prev.lods.push(
                PackNodeLod {
                    chunk_index: chunk as u32,
                    lod_level: (m - 1) as u32,
                    count,
                    first_page: prev.pages.len() as u32,
                    page_count: added.len() as u32,
                },
            ),
            pages: prev.pages + added,
        }
    }
}

/// The splat counts of the levels of detail that a pack holds of a chunk.
pub open spec fn entry_lods(entry: ChunkEntry) -> Seq<u32> {
    lod_counts(entry.count as int, DEFAULT_LOD_LEVELS as nat)
}

/// The layout of the first `n` chunks.
pub open spec fn layout(entries: Seq<ChunkEntry>, n: nat, page_splats: int) -> Layout
    decreases n,
{
    if n == 0 {
        Layout { chunks: Seq::empty(), lods: Seq::empty(), pages: Seq::empty() }
    } else {
        let prev = layout(entries, (n - 1) as nat, page_splats);
        let entry = entries[n - 1];
        let next = with_lods(
            prev,
            n - 1,
            entry_lods(entry),
            entry_lods(entry).len(),
            page_splats,
        );
        Layout {
            chunks: prev.chunks.push(
                PackChunk {
                    entry,
                    first_page: prev.pages.len() as u32,
                    page_count: (next.pages.len() - prev.pages.len()) as u32,
                },
            ),
            lods: next.lods,
            pages: next.pages,
        }
    }
}

/// The number of records in the first `n` pages.
pub open spec fn records_before(pages: Seq<PackPage>, n: nat) -> int
    decreases n,
{
    if n == 0 {
        0
    } else {
        records_before(pages, (n - 1) as nat) + pages[n - 1].count
    }
}

/// The pages, placed one after the other from `base` on.
pub open spec fn placed(pages: Seq<PackPage>, base: int, record_bytes: int) -> Seq<PackPage> {
    Seq::new(
        pages.len(),
        |i: int|
            PackPage {
                byte_offset: (base + record_bytes * records_before(pages, i as nat)) as u64,
                byte_len: (pages[i].count * record_bytes) as u32,
                ..pages[i]
            },
    )
}

/// Where the level-of-detail table starts.
pub open spec fn lod_table_start(plan: Layout) -> int {
    160 + 64 * plan.chunks.len() as int
}

/// Where the page table starts.
pub open spec fn page_table_start(plan: Layout) -> int {
    lod_table_start(plan) + 32 * plan.lods.len()
}

/// Where the records start.
pub open spec fn payload_start(plan: Layout) -> int {
    page_table_start(plan) + 32 * plan.pages.len()
}

/// The length of the whole file.
pub open spec fn image_size(plan: Layout, record_bytes: int) -> int {
    payload_start(plan) + record_bytes * records_before(plan.pages, plan.pages.len())
}

/// The layout of a whole table. A page holds at least one record.
pub open spec fn table_layout(entries: Seq<ChunkEntry>, page_splats: u32) -> Layout {
    layout(entries, entries.len(), page_limit(page_splats))
}

/// The records per page that `page_splats` asks for: at least one.
pub open spec fn page_limit(page_splats: u32) -> int {
    if page_splats == 0 {
        1
    } else {
        page_splats as int
    }
}

/// The numbers per splat: at least the core layout.
pub open spec fn effective_stride(stride: usize) -> int {
    if stride < POINT_STRIDE_FLOATS {
        POINT_STRIDE_FLOATS as int
    } else {
        stride as int
    }
}

/// The degree that a pack stores: what is asked for, as far as the splats carry it.
pub open spec fn stored_degree(degree: i32, stride: usize) -> int {
    if degree < 0 {
        0
    } else {
        least(degree as int, crate::gsplat_pack::stride_degree(effective_stride(stride)))
    }
}

/// The bytes of one record of the pack.
pub open spec fn stored_record_size(degree: i32, stride: usize) -> int {
    crate::gsplat_pack::record_size(stored_degree(degree, stride))
}

/// Whether some page, were it not quantized, would hold more bytes than 32 bits can say.
pub open spec fn page_overflows(entries: Seq<ChunkEntry>, page_splats: u32, stride: usize) -> bool {
    exists|i: int|
        0 <= i < entries.len() && 4 * (least(page_limit(page_splats), (#[trigger] entries[i]).count as int)
            * effective_stride(stride)) > u32::MAX
}

/// Whether every counter and offset of the pack fits the field that holds it.
pub open spec fn pack_fits(
    payload_len: usize,
    entries: Seq<ChunkEntry>,
    stride: usize,
    degree: i32,
    page_splats: u32,
) -> bool {
    let plan = table_layout(entries, page_splats);
    &&& effective_stride(stride) <= u32::MAX
    &&& payload_len as int / effective_stride(stride) <= u32::MAX
    &&& plan.chunks.len() <= u32::MAX
    &&& plan.lods.len() <= u32::MAX
    &&& plan.pages.len() <= u32::MAX
    &&& image_size(plan, stored_record_size(degree, stride)) <= u64::MAX
}

/// Everything about a pack that does not depend on what its records hold.
#[derive(Clone, Debug)]
pub struct PackPlan {
    pub point_count: u32,
    pub stride: usize,
    pub sh_degree_available: i32,
    pub record_bytes: usize,
    pub chunks: Vec<PackChunk>,
    pub lods: Vec<PackNodeLod>,
    pub pages: Vec<PackPage>,
    pub node_lod_table_offset: u64,
    pub page_table_offset: u64,
    pub payload_offset: u64,
}

/// Whether `plan` is the plan for the given pack.
pub open spec fn is_plan(
    plan: PackPlan,
    payload_len: usize,
    entries: Seq<ChunkEntry>,
    stride: usize,
    degree: i32,
    page_splats: u32,
) -> bool {
    let whole = table_layout(entries, page_splats);
    &&& plan.point_count == payload_len as int / effective_stride(stride)
    &&& plan.stride == effective_stride(stride)
    &&& plan.sh_degree_available == stored_degree(degree, stride)
    &&& plan.record_bytes == stored_record_size(degree, stride)
    &&& plan.chunks@ == whole.chunks
    &&& plan.lods@ == whole.lods
    &&& plan.pages@ == placed(
        whole.pages,
        payload_start(whole),
        stored_record_size(degree, stride),
    )
    &&& plan.node_lod_table_offset == lod_table_start(whole)
    &&& plan.page_table_offset == page_table_start(whole)
    &&& plan.payload_offset == payload_start(whole)
}

/// The levels of detail of a chunk are as many as asked for, or fewer.
pub proof fn lemma_lod_counts_bounds(count: int, levels: nat)
    requires
        count <= u32::MAX,
    ensures
        lod_counts(count, levels).len() <= levels,
        count >= 1 && levels >= 1 ==> lod_counts(count, levels).len() >= 1 && lod_counts(
            count,
            levels,
        )[0] == count,
        forall|i: int|
            0 <= i < lod_counts(count, levels).len() ==> 1 <= #[trigger] lod_counts(
                count,
                levels,
            )[i] <= count,
    decreases levels,
{
    if count > 1 && levels > 0 {
        lemma_lod_counts_bounds((count + 1) / 2, (levels - 1) as nat);
        let rest = lod_counts((count + 1) / 2, (levels - 1) as nat);
        assert forall|i: int| 0 <= i < lod_counts(count, levels).len() implies 1
            <= #[trigger] lod_counts(count, levels)[i] <= count by {
            if i > 0 {
                assert(lod_counts(count, levels)[i] == rest[i - 1]);
            }
        }
    }
}

/// The splat counts of a chunk's levels of detail.
pub fn lod_counts_for_chunk(count: u32, max_levels: u32) -> (counts: Vec<u32>)
    ensures
        counts@ == lod_counts(count as int, level_limit(max_levels)),
{
    let mut counts: Vec<u32> = Vec::new();
    if count == 0 {
        return counts;
    }
    let levels: u32 = if max_levels == 0 {
        1
    } else {
        max_levels
    };
    let mut current: u32 = count;
    let mut level: u32 = 0;
    while level < levels
        invariant_except_break
            level <= levels,
            1 <= current,
            counts@ + lod_counts(current as int, (levels - level) as nat) == lod_counts(
                count as int,
                levels as nat,
            ),
        ensures
            counts@ == lod_counts(count as int, levels as nat),
        decreases levels - level,
    {
        let ghost rest = lod_counts(current as int, (levels - level) as nat);
        counts.push(current);
        if current <= 1 {
            assert(rest =~= seq![1u32]);
            break;
        }
        let next: u32 = current / 2 + current % 2;
        assert(next == (current + 1) / 2);
        proof {
            let tail = lod_counts(next as int, (levels - level - 1) as nat);
            assert(rest == seq![current] + tail);
            assert(counts@ + tail =~= lod_counts(count as int, levels as nat));
        }
        current = next;
        level = level + 1;
    }
    counts
}

/// A page boundary between `p - 1` and `p` full pages makes `p` pages.
pub proof fn lemma_pages_for(count: int, page_splats: int, p: int)
    requires
        page_splats >= 1,
        count >= 0,
        p * page_splats >= count,
        p == 0 || (p - 1) * page_splats < count,
        p >= 0,
    ensures
        pages_for(count, page_splats) == p,
{
    let r = count + page_splats - 1 - p * page_splats;
    assert((p - 1) * page_splats == p * page_splats - page_splats) by (nonlinear_arith);
    if p == 0 {
        assert(count == 0) by (nonlinear_arith)
            requires
                p == 0,
                p * page_splats >= count,
                count >= 0,
        ;
        assert(p * page_splats == 0) by (nonlinear_arith)
            requires
                p == 0,
        ;
    }
    lemma_fundamental_div_mod_converse(count + page_splats - 1, page_splats, p, r);
}

/// Before the last page boundary there are pages left.
pub proof fn lemma_page_within(count: int, page_splats: int, p: int)
    requires
        page_splats >= 1,
        0 <= p,
        p * page_splats < count,
    ensures
        p < pages_for(count, page_splats),
{
    let total = pages_for(count, page_splats);
    vstd::arithmetic::div_mod::lemma_fundamental_div_mod(count + page_splats - 1, page_splats);
    assert(total * page_splats >= count) by (nonlinear_arith)
        requires
            count + page_splats - 1 == page_splats * total + (count + page_splats - 1)
                % page_splats,
            (count + page_splats - 1) % page_splats < page_splats,
    ;
    assert(p < total) by (nonlinear_arith)
        requires
            p * page_splats < count,
            total * page_splats >= count,
            page_splats >= 1,
    ;
}

/// Appends the pages of one level of detail. Says whether the page counter can hold them.
fn push_lod_pages(
    pages: &mut Vec<PackPage>,
    chunk_index: u32,
    lod_index: u32,
    lod_count: u32,
    page_splats: u32,
) -> (fits: bool)
    requires
        page_splats >= 1,
        old(pages)@.len() <= u32::MAX,
    ensures
        ({
            let all = old(pages)@ + lod_pages(
                chunk_index as int,
                lod_index as int,
                lod_count as int,
                page_splats as int,
            );
            &&& fits == (all.len() <= u32::MAX)
            &&& fits ==> final(pages)@ == all
        }),
{
    let ghost before = pages@;
    let ghost whole = lod_pages(
        chunk_index as int,
        lod_index as int,
        lod_count as int,
        page_splats as int,
    );
    let mut start: u32 = 0;
    let ghost mut p: int = 0;
    assert(before + whole.take(0) =~= before);
    while start < lod_count
        invariant
            page_splats >= 1,
            before == old(pages)@,
            whole == lod_pages(
                chunk_index as int,
                lod_index as int,
                lod_count as int,
                page_splats as int,
            ),
            start <= lod_count,
            p >= 0,
            start == least(p * page_splats, lod_count as int),
            p > 0 ==> (p - 1) * page_splats < lod_count,
            p <= whole.len(),
            before.len() + p <= u32::MAX,
            pages@ == before + whole.take(p),
        decreases lod_count - start,
    {
        proof {
            lemma_page_within(lod_count as int, page_splats as int, p);
            assert((p + 1) * page_splats == p * page_splats + page_splats) by (nonlinear_arith);
        }
        let left: u32 = lod_count - start;
        let count: u32 = if left < page_splats {
            left
        } else {
            page_splats
        };
        if pages.len() >= u32::MAX as usize {
            return false;
        }
        let page = PackPage {
            chunk_index,
            lod_index,
            start_in_lod: start,
            count,
            byte_offset: 0,
            byte_len: 0,
        };
        assert(page == whole[p]);
        pages.push(page);
        assert(before + whole.take(p + 1) =~= (before + whole.take(p)).push(whole[p]));
        start = start + count;
        proof {
            p = p + 1;
        }
    }
    proof {
        lemma_pages_for(lod_count as int, page_splats as int, p);
        assert(whole.take(p) =~= whole);
    }
    true
}

/// Adding levels never takes levels or pages away, and leaves the chunks alone.
proof fn lemma_with_lods_grows(
    base: Layout,
    chunk: int,
    counts: Seq<u32>,
    m: nat,
    n: nat,
    page_splats: int,
)
    requires
        m <= n,
    ensures
        with_lods(base, chunk, counts, m, page_splats).lods.len() == base.lods.len() + m,
        with_lods(base, chunk, counts, m, page_splats).pages.len() <= with_lods(
            base,
            chunk,
            counts,
            n,
            page_splats,
        ).pages.len(),
        with_lods(base, chunk, counts, n, page_splats).chunks == base.chunks,
    decreases n,
{
    if m < n {
        lemma_with_lods_grows(base, chunk, counts, m, (n - 1) as nat, page_splats);
    } else if n > 0 {
        lemma_with_lods_grows(base, chunk, counts, (m - 1) as nat, (n - 1) as nat, page_splats);
    }
}

/// Adding chunks never takes anything away.
pub proof fn lemma_layout_grows(entries: Seq<ChunkEntry>, m: nat, n: nat, page_splats: int)
    requires
        m <= n,
    ensures
        layout(entries, m, page_splats).chunks.len() == m,
        layout(entries, m, page_splats).lods.len() <= layout(entries, n, page_splats).lods.len(),
        layout(entries, m, page_splats).pages.len() <= layout(entries, n, page_splats).pages.len(),
    decreases n,
{
    if n > 0 {
        let prev = layout(entries, (n - 1) as nat, page_splats);
        let counts = entry_lods(entries[n - 1]);
        lemma_with_lods_grows(prev, n - 1, counts, 0, counts.len(), page_splats);
        lemma_with_lods_grows(prev, n - 1, counts, counts.len(), counts.len(), page_splats);
        if m < n {
            lemma_layout_grows(entries, m, (n - 1) as nat, page_splats);
        } else {
            lemma_layout_grows(entries, (m - 1) as nat, (n - 1) as nat, page_splats);
        }
    }
}

/// Appends the levels of detail of one chunk with their pages. Says whether the counters can hold
/// them.
fn push_chunk_lods(
    lods: &mut Vec<PackNodeLod>,
    pages: &mut Vec<PackPage>,
    chunk_index: u32,
    entry: &ChunkEntry,
    page_splats: u32,
    Ghost(base): Ghost<Layout>,
) -> (fits: bool)
    requires
        page_splats >= 1,
        old(lods)@ == base.lods,
        old(pages)@ == base.pages,
        base.lods.len() <= u32::MAX,
        base.pages.len() <= u32::MAX,
    ensures
        ({
            let counts = entry_lods(*entry);
            let all = with_lods(
                base,
                chunk_index as int,
                counts,
                counts.len(),
                page_splats as int,
            );
            &&& fits == (all.lods.len() <= u32::MAX && all.pages.len() <= u32::MAX)
            &&& fits ==> final(lods)@ == all.lods
            &&& fits ==> final(pages)@ == all.pages
        }),
{
    let counts = lod_counts_for_chunk(entry.count, DEFAULT_LOD_LEVELS);
    let mut level: usize = 0;
    proof {
        lemma_lod_counts_bounds(entry.count as int, DEFAULT_LOD_LEVELS as nat);
        lemma_with_lods_grows(
            base,
            chunk_index as int,
            counts@,
            counts@.len(),
            counts@.len(),
            page_splats as int,
        );
    }
    while level < counts.len()
        invariant
            page_splats >= 1,
            counts@ == entry_lods(*entry),
            counts@.len() <= 4,
            level <= counts@.len(),
            lods@ == with_lods(
                base,
                chunk_index as int,
                counts@,
                level as nat,
                page_splats as int,
            ).lods,
            pages@ == with_lods(
                base,
                chunk_index as int,
                counts@,
                level as nat,
                page_splats as int,
            ).pages,
            lods@.len() == base.lods.len() + level,
            lods@.len() <= u32::MAX,
            pages@.len() <= u32::MAX,
            with_lods(
                base,
                chunk_index as int,
                counts@,
                counts@.len(),
                page_splats as int,
            ).lods.len() == base.lods.len() + counts@.len(),
        decreases counts@.len() - level,
    {
        proof {
            lemma_with_lods_grows(
                base,
                chunk_index as int,
                counts@,
                (level + 1) as nat,
                counts@.len(),
                page_splats as int,
            );
        }
        if lods.len() >= u32::MAX as usize {
            return false;
        }
        let lod_index: u32 = lods.len() as u32;
        let first_page: u32 = pages.len() as u32;
        let lod_count: u32 = counts[level];
        if !push_lod_pages(pages, chunk_index, lod_index, lod_count, page_splats) {
            return false;
        }
        lods.push(
            PackNodeLod {
                chunk_index,
                lod_level: level as u32,
                count: lod_count,
                first_page,
                page_count: pages.len() as u32 - first_page,
            },
        );
        level = level + 1;
    }
    true
}

/// Lays out all chunks. Nothing comes back where a counter cannot hold what it counts.
fn lay_out(entries: &Vec<ChunkEntry>, page_splats: u32) -> (result: Option<
    (Vec<PackChunk>, Vec<PackNodeLod>, Vec<PackPage>),
>)
    requires
        page_splats >= 1,
    ensures
        ({
            let whole = layout(entries@, entries@.len(), page_splats as int);
            match result {
                Some(parts) => {
                    &&& whole.chunks.len() <= u32::MAX
                    &&& whole.lods.len() <= u32::MAX
                    &&& whole.pages.len() <= u32::MAX
                    &&& parts.0@ == whole.chunks
                    &&& parts.1@ == whole.lods
                    &&& parts.2@ == whole.pages
                },
                None => whole.chunks.len() > u32::MAX || whole.lods.len() > u32::MAX
                    || whole.pages.len() > u32::MAX,
            }
        }),
{
    let mut chunks: Vec<PackChunk> = Vec::new();
    let mut lods: Vec<PackNodeLod> = Vec::new();
    let mut pages: Vec<PackPage> = Vec::new();
    proof {
        lemma_layout_grows(entries@, entries@.len(), entries@.len(), page_splats as int);
    }
    if entries.len() > u32::MAX as usize {
        return None;
    }
    let mut i: usize = 0;
    while i < entries.len()
        invariant
            page_splats >= 1,
            i <= entries@.len() <= u32::MAX,
            chunks@ == layout(entries@, i as nat, page_splats as int).chunks,
            lods@ == layout(entries@, i as nat, page_splats as int).lods,
            pages@ == layout(entries@, i as nat, page_splats as int).pages,
            lods@.len() <= u32::MAX,
            pages@.len() <= u32::MAX,
        decreases entries@.len() - i,
    {
        let ghost base = layout(entries@, i as nat, page_splats as int);
        proof {
            lemma_layout_grows(entries@, (i + 1) as nat, entries@.len(), page_splats as int);
        }
        let first_page: u32 = pages.len() as u32;
        let entry: ChunkEntry = entries[i];
        if !push_chunk_lods(&mut lods, &mut pages, i as u32, &entry, page_splats, Ghost(base)) {
            return None;
        }
        proof {
            let counts = entry_lods(entry);
            lemma_with_lods_grows(base, i as int, counts, 0, counts.len(), page_splats as int);
        }
        chunks.push(
            PackChunk { entry, first_page, page_count: pages.len() as u32 - first_page },
        );
        i = i + 1;
    }
    proof {
        lemma_layout_grows(entries@, entries@.len(), entries@.len(), page_splats as int);
    }
    Some((chunks, lods, pages))
}

/// Whether every level of detail belongs to one of the first `n` chunks and is no larger than it,
/// and every page lies within its level of detail.
pub open spec fn nested(entries: Seq<ChunkEntry>, n: int, plan: Layout, page_splats: int) -> bool {
    &&& forall|l: int| 0 <= l < plan.lods.len() ==> lod_nested(entries, n, #[trigger] plan.lods[l])
    &&& forall|p: int|
        0 <= p < plan.pages.len() ==> page_nested(plan.lods, #[trigger] plan.pages[p], page_splats)
}

/// Whether a level of detail belongs to one of the first `n` chunks and is no larger than it.
pub open spec fn lod_nested(entries: Seq<ChunkEntry>, n: int, lod: PackNodeLod) -> bool {
    &&& lod.chunk_index < n
    &&& 1 <= lod.count <= entries[lod.chunk_index as int].count
}

/// Whether a page holds at least one record, at most `page_splats`, all of its level of detail.
pub open spec fn page_nested(lods: Seq<PackNodeLod>, page: PackPage, page_splats: int) -> bool {
    &&& page.lod_index < lods.len()
    &&& page.chunk_index == lods[page.lod_index as int].chunk_index
    &&& 1 <= page.count <= page_splats
    &&& page.start_in_lod + page.count <= lods[page.lod_index as int].count
}

/// A chunk's levels of detail keep the nesting.
proof fn lemma_with_lods_nested(
    entries: Seq<ChunkEntry>,
    base: Layout,
    chunk: int,
    m: nat,
    page_splats: int,
)
    requires
        0 <= chunk < entries.len(),
        chunk < u32::MAX,
        page_splats >= 1,
        m <= entry_lods(entries[chunk]).len(),
        base.lods.len() + m <= u32::MAX,
        nested(entries, chunk, base, page_splats),
    ensures
        nested(
            entries,
            chunk + 1,
            with_lods(base, chunk, entry_lods(entries[chunk]), m, page_splats),
            page_splats,
        ),
    decreases m,
{
    let counts = entry_lods(entries[chunk]);
    lemma_lod_counts_bounds(entries[chunk].count as int, DEFAULT_LOD_LEVELS as nat);
    if m > 0 {
        let prev = with_lods(base, chunk, counts, (m - 1) as nat, page_splats);
        let next = with_lods(base, chunk, counts, m, page_splats);
        lemma_with_lods_nested(entries, base, chunk, (m - 1) as nat, page_splats);
        lemma_with_lods_grows(base, chunk, counts, (m - 1) as nat, m, page_splats);
        let count = counts[m - 1] as int;
        let lod = prev.lods.len() as int;
        let added = lod_pages(chunk, lod, count, page_splats);
        assert(next.lods[lod].count == count);
        assert forall|p: int| 0 <= p < next.pages.len() implies page_nested(
            next.lods,
            #[trigger] next.pages[p],
            page_splats,
        ) by {
            if p < prev.pages.len() {
                assert(page_nested(prev.lods, prev.pages[p], page_splats));
            } else {
                let q = p - prev.pages.len();
                assert(next.pages[p] == added[q]);
                lemma_page_starts_within(count, page_splats, q);
            }
        }
        assert forall|l: int| 0 <= l < next.lods.len() implies lod_nested(
            entries,
            chunk + 1,
            #[trigger] next.lods[l],
        ) by {
            if l < lod {
                assert(lod_nested(entries, chunk + 1, prev.lods[l]));
            }
        }
    } else {
        assert forall|l: int| 0 <= l < base.lods.len() implies lod_nested(
            entries,
            chunk + 1,
            #[trigger] base.lods[l],
        ) by {
            assert(lod_nested(entries, chunk, base.lods[l]));
        }
    }
}

/// A page starts before its level of detail ends.
proof fn lemma_page_starts_within(count: int, page_splats: int, p: int)
    requires
        page_splats >= 1,
        count >= 0,
        0 <= p < pages_for(count, page_splats),
    ensures
        0 <= p * page_splats < count,
{
    let total = pages_for(count, page_splats);
    vstd::arithmetic::div_mod::lemma_fundamental_div_mod(count + page_splats - 1, page_splats);
    assert(0 <= p * page_splats && p * page_splats + page_splats <= page_splats * total)
        by (nonlinear_arith)
        requires
            0 <= p < total,
            page_splats >= 1,
    ;
}

/// In a layout every level of detail is part of its chunk and every page part of its level.
pub proof fn layout_is_nested(entries: Seq<ChunkEntry>, n: nat, page_splats: int)
    requires
        n <= entries.len(),
        n <= u32::MAX,
        page_splats >= 1,
        layout(entries, n, page_splats).lods.len() <= u32::MAX,
    ensures
        nested(entries, n as int, layout(entries, n, page_splats), page_splats),
    decreases n,
{
    if n > 0 {
        let prev = layout(entries, (n - 1) as nat, page_splats);
        let counts = entry_lods(entries[n - 1]);
        lemma_layout_grows(entries, (n - 1) as nat, n, page_splats);
        lemma_with_lods_grows(prev, n - 1, counts, counts.len(), counts.len(), page_splats);
        layout_is_nested(entries, (n - 1) as nat, page_splats);
        lemma_with_lods_nested(entries, prev, n - 1, counts.len(), page_splats);
    }
}

/// Placing the pages fills in where their bytes are. Says whether the offsets fit.
fn place_pages(pages: &mut Vec<PackPage>, base: u64, record_bytes: u32) -> (fits: bool)
    requires
        forall|i: int|
            0 <= i < old(pages)@.len() ==> (#[trigger] old(pages)@[i]).count * record_bytes
                <= u32::MAX,
    ensures
        fits == (base + record_bytes * records_before(old(pages)@, old(pages)@.len()) <= u64::MAX),
        fits ==> final(pages)@ == placed(old(pages)@, base as int, record_bytes as int),
{
    let ghost before = pages@;
    let mut cursor: u64 = base;
    let mut i: usize = 0;
    assert(record_bytes * records_before(before, 0) == 0) by (nonlinear_arith)
        requires
            records_before(before, 0) == 0,
    ;
    while i < pages.len()
        invariant
            before == old(pages)@,
            i <= pages@.len() == before.len(),
            cursor == base + record_bytes * records_before(before, i as nat),
            forall|k: int|
                0 <= k < before.len() ==> (#[trigger] before[k]).count * record_bytes <= u32::MAX,
            forall|k: int|
                0 <= k < i ==> #[trigger] pages@[k] == placed(
                    before,
                    base as int,
                    record_bytes as int,
                )[k],
            forall|k: int| i <= k < before.len() ==> #[trigger] pages@[k] == before[k],
        decreases pages@.len() - i,
    {
        let mut page: PackPage = pages[i];
        assert(page == before[i as int]);
        let byte_len: u32 = page.count * record_bytes;
        proof {
            assert(record_bytes * records_before(before, (i + 1) as nat) == record_bytes
                * records_before(before, i as nat) + page.count * record_bytes)
                by (nonlinear_arith)
                requires
                    records_before(before, (i + 1) as nat) == records_before(before, i as nat)
                        + page.count,
            ;
            lemma_records_grow(before, (i + 1) as nat, before.len());
            assert(record_bytes * records_before(before, (i + 1) as nat) <= record_bytes
                * records_before(before, before.len())) by (nonlinear_arith)
                requires
                    records_before(before, (i + 1) as nat) <= records_before(before, before.len()),
            ;
        }
        if cursor > u64::MAX - byte_len as u64 {
            return false;
        }
        page.byte_offset = cursor;
        page.byte_len = byte_len;
        pages.set(i, page);
        cursor = cursor + byte_len as u64;
        i = i + 1;
    }
    assert(pages@ =~= placed(before, base as int, record_bytes as int));
    true
}

/// Further pages hold further records.
pub proof fn lemma_records_grow(pages: Seq<PackPage>, m: nat, n: nat)
    requires
        m <= n,
    ensures
        0 <= records_before(pages, m) <= records_before(pages, n),
    decreases n,
{
    if m < n {
        lemma_records_grow(pages, m, (n - 1) as nat);
    } else if n > 0 {
        lemma_records_grow(pages, (m - 1) as nat, (n - 1) as nat);
    }
}

/// Whether some page would hold too many bytes before quantization.
fn has_overflowing_page(entries: &Vec<ChunkEntry>, page_splats: u32, stride: usize) -> (result: bool)
    ensures
        result == page_overflows(entries@, page_splats, stride),
{
    let limit: u32 = if page_splats == 0 {
        1
    } else {
        page_splats
    };
    let width: usize = if stride < POINT_STRIDE_FLOATS {
        POINT_STRIDE_FLOATS
    } else {
        stride
    };
    let mut i: usize = 0;
    while i < entries.len()
        invariant
            i <= entries@.len(),
            limit == page_limit(page_splats),
            width == effective_stride(stride),
            forall|k: int|
                0 <= k < i ==> 4 * (least(
                    page_limit(page_splats),
                    (#[trigger] entries@[k]).count as int,
                ) * effective_stride(stride)) <= u32::MAX,
        decreases entries@.len() - i,
    {
        let count: u32 = entries[i].count;
        let page: u32 = if limit <= count {
            limit
        } else {
            count
        };
        assert(page == least(page_limit(page_splats), entries@[i as int].count as int));
        assert(page as u128 * width as u128 <= 0xffff_ffff * 0xffff_ffff_ffff_ffff)
            by (nonlinear_arith)
            requires
                page <= 0xffff_ffff,
                width <= 0xffff_ffff_ffff_ffff,
        ;
        if 4 * (page as u128 * width as u128) > u32::MAX as u128 {
            return true;
        }
        i = i + 1;
    }
    false
}

/// The degree that a pack stores.
pub fn stored_sh_degree(sh_degree_available: i32, stride: usize) -> (degree: i32)
    ensures
        degree == stored_degree(sh_degree_available, stride),
        0 <= degree <= 3,
        effective_stride(stride) >= POINT_STRIDE_FLOATS + sh_count(degree as int),
{
    let width: usize = if stride < POINT_STRIDE_FLOATS {
        POINT_STRIDE_FLOATS
    } else {
        stride
    };
    let limit: i32 = max_sh_degree_for_stride(width);
    if sh_degree_available < 0 {
        0
    } else if sh_degree_available <= limit {
        sh_degree_available
    } else {
        limit
    }
}

/// Plans a pack of `payload_len` numbers, partitioned as `table` says.
pub fn plan_pack(
    payload_len: usize,
    table: &ChunkTable,
    sh_degree_available: i32,
    page_splats: u32,
) -> (result: Result<PackPlan, PackError>)
    ensures
        ({
            let aligned = payload_len as int % effective_stride(table.stride) == 0;
            let overflows = page_overflows(table.entries@, page_splats, table.stride);
            let fits = pack_fits(
                payload_len,
                table.entries@,
                table.stride,
                sh_degree_available,
                page_splats,
            );
            match result {
                Err(error) => {
                    ||| error == PackError::PayloadMisaligned && !aligned
                    ||| error == PackError::PageBytesOverflow && aligned && overflows
                    ||| error == PackError::TooLarge && aligned && !overflows && !fits
                },
                Ok(plan) => aligned && !overflows && fits && is_plan(
                    plan,
                    payload_len,
                    table.entries@,
                    table.stride,
                    sh_degree_available,
                    page_splats,
                ),
            }
        }),
{
    let stride: usize = if table.stride < POINT_STRIDE_FLOATS {
        POINT_STRIDE_FLOATS
    } else {
        table.stride
    };
    let degree: i32 = stored_sh_degree(sh_degree_available, table.stride);
    if payload_len % stride != 0 {
        return Err(PackError::PayloadMisaligned);
    }
    if has_overflowing_page(&table.entries, page_splats, table.stride) {
        return Err(PackError::PageBytesOverflow);
    }
    let point_count: usize = payload_len / stride;
    if stride > u32::MAX as usize || point_count > u32::MAX as usize {
        return Err(PackError::TooLarge);
    }
    let page_splats_used: u32 = if page_splats == 0 {
        1
    } else {
        page_splats
    };
    let (chunks, lods, mut pages) = match lay_out(&table.entries, page_splats_used) {
        Some(parts) => parts,
        None => return Err(PackError::TooLarge),
    };
    let ghost whole = table_layout(table.entries@, page_splats);
    let record_bytes: usize = packed_record_bytes(degree);
    let node_lod_table_offset: u64 = 160 + 64 * chunks.len() as u64;
    let page_table_offset: u64 = node_lod_table_offset + 32 * lods.len() as u64;
    let payload_offset: u64 = page_table_offset + 32 * pages.len() as u64;
    proof {
        lemma_layout_grows(
            table.entries@,
            table.entries@.len(),
            table.entries@.len(),
            page_splats_used as int,
        );
        layout_is_nested(table.entries@, table.entries@.len(), page_splats_used as int);
        lemma_record_fits_stride(degree as int, stride as int);
        assert forall|i: int| 0 <= i < pages@.len() implies (#[trigger] pages@[i]).count
            * record_bytes <= u32::MAX by {
            lemma_page_bytes_fit(
                table.entries@,
                page_splats,
                table.stride,
                whole,
                i,
                record_bytes as int,
            );
        }
    }
    if !place_pages(&mut pages, payload_offset, record_bytes as u32) {
        return Err(PackError::TooLarge);
    }
    Ok(
        PackPlan {
            point_count: point_count as u32,
            stride,
            sh_degree_available: degree,
            record_bytes,
            chunks,
            lods,
            pages,
            node_lod_table_offset,
            page_table_offset,
            payload_offset,
        },
    )
}

/// A quantized record is never larger than the numbers it stands for.
proof fn lemma_record_fits_stride(degree: int, stride: int)
    requires
        stride >= POINT_STRIDE_FLOATS,
        0 <= degree <= crate::gsplat_pack::stride_degree(stride),
    ensures
        crate::gsplat_pack::record_size(degree) <= 4 * stride,
{
}

/// Where no page overflows before quantization, none does after it.
pub proof fn lemma_page_bytes_fit(
    entries: Seq<ChunkEntry>,
    page_splats: u32,
    stride: usize,
    plan: Layout,
    i: int,
    record_bytes: int,
)
    requires
        !page_overflows(entries, page_splats, stride),
        nested(entries, entries.len() as int, plan, page_limit(page_splats)),
        0 <= i < plan.pages.len(),
        0 <= record_bytes <= 4 * effective_stride(stride),
    ensures
        plan.pages[i].count * record_bytes <= u32::MAX,
{
    let page = plan.pages[i];
    let lod = plan.lods[page.lod_index as int];
    assert(page_nested(plan.lods, page, page_limit(page_splats)));
    assert(lod_nested(entries, entries.len() as int, lod));
    let entry = entries[lod.chunk_index as int];
    let most = least(page_limit(page_splats), entry.count as int);
    let width = effective_stride(stride);
    assert(4 * (most * width) <= u32::MAX);
    assert(page.count * record_bytes <= 4 * (most * width)) by (nonlinear_arith)
        requires
            0 <= page.count <= most,
            0 <= record_bytes <= 4 * width,
    ;
}

} // verus!
