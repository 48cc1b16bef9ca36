//! What reading gives back of what was written.

use crate::bytes::words_bytes;
use crate::chunking::{ChunkEntry, ChunkTable};
use crate::gsplat_pack::format::{
    chunk_round_trips, chunk_table_words, header_bytes, header_round_trips, lemma_header_len,
    lod_round_trips,
    lod_table_words, page_round_trips, page_table_words,
};
use crate::gsplat_pack::layout::{
    is_plan, lemma_layout_grows, lemma_records_grow, pack_fits, page_limit, page_nested,
    payload_start, records_before, stored_record_size, table_layout, PackPlan,
};
use crate::gsplat_pack::reader::{
    chunks_at, index_of, lods_at, pages_at, parsed_index, parsed_page, parsed_tables,
};
use crate::gsplat_pack::records::{lod_sample_is_selection, QuantizedSplat};
use crate::gsplat_pack::writer::{
    lemma_plan_nested, lod_sources, makes_pack, page_bytes, payload_bytes, plan_header, plan_image,
    record_run, PackContents,
};
use crate::gsplat_pack::{record_size, PackError, PackIndexView, PackChunk, PackNodeLod, PackPage};
use vstd::prelude::*;

verus! {

/// The index of a planned pack.
pub open spec fn plan_index(
    path: Seq<char>,
    plan: PackPlan,
    table: ChunkTable,
    contents: PackContents,
) -> PackIndexView {
    index_of(
        path,
        plan_header(plan, table, contents.ranges),
        plan.chunks@,
        plan.lods@,
        plan.pages@,
    )
}

/// The length of everything before the records is where the records were planned to start.
proof fn lemma_tables_len(
    plan: PackPlan,
    payload_len: usize,
    table: ChunkTable,
    degree: i32,
    page_splats: u32,
    contents: PackContents,
)
    requires
        is_plan(plan, payload_len, table.entries@, table.stride, degree, page_splats),
        pack_fits(payload_len, table.entries@, table.stride, degree, page_splats),
    ensures
        ({
            let header = header_bytes(plan_header(plan, table, contents.ranges));
            let chunks = words_bytes(chunk_table_words(plan.chunks@));
            let lods = words_bytes(lod_table_words(plan.lods@));
            let pages = words_bytes(page_table_words(plan.pages@));
            &&& header.len() == 160
            &&& (header + chunks).len() == plan.node_lod_table_offset
            &&& (header + chunks + lods).len() == plan.page_table_offset
            &&& (header + chunks + lods + pages).len() == plan.payload_offset
        }),
{
    lemma_header_len(plan_header(plan, table, contents.ranges));
    lemma_layout_grows(
        table.entries@,
        table.entries@.len(),
        table.entries@.len(),
        page_limit(page_splats),
    );
}

/// Each of five parts, put one after the other, is found where the parts before it end.
proof fn lemma_five_parts(a: Seq<u8>, b: Seq<u8>, c: Seq<u8>, d: Seq<u8>, e: Seq<u8>)
    ensures
        ({
            let all = a + b + c + d + e;
            let ab = (a + b).len() as int;
            let abc = (a + b + c).len() as int;
            let abcd = (a + b + c + d).len() as int;
            &&& all.subrange(0, a.len() as int) == a
            &&& all.subrange(a.len() as int, ab) == b
            &&& all.subrange(ab, abc) == c
            &&& all.subrange(abc, abcd) == d
            &&& abcd <= all.len()
        }),
{
    let all = a + b + c + d + e;
    let ab = (a + b).len() as int;
    let abc = (a + b + c).len() as int;
    let abcd = (a + b + c + d).len() as int;
    assert(all.subrange(0, a.len() as int) =~= a);
    assert(all.subrange(a.len() as int, ab) =~= b);
    assert(all.subrange(ab, abc) =~= c);
    assert(all.subrange(abc, abcd) =~= d);
}

/// A table of chunks is read back as it was written.
proof fn lemma_chunks_read_back(chunks: Seq<PackChunk>, bytes: Seq<u8>, base: int)
    requires
        0 <= base,
        base + 64 * chunks.len() <= bytes.len(),
        bytes.subrange(base, base + 64 * chunks.len()) == words_bytes(chunk_table_words(chunks)),
    ensures
        chunks_at(bytes, base, chunks.len() as int) == chunks,
{
    let back = chunks_at(bytes, base, chunks.len() as int);
    assert forall|i: int| 0 <= i < chunks.len() implies #[trigger] back[i] == chunks[i] by {
        chunk_round_trips(chunks, bytes, base, i);
    }
    assert(back =~= chunks);
}

/// A table of levels of detail is read back as it was written.
proof fn lemma_lods_read_back(lods: Seq<PackNodeLod>, bytes: Seq<u8>, base: int)
    requires
        0 <= base,
        base + 32 * lods.len() <= bytes.len(),
        bytes.subrange(base, base + 32 * lods.len()) == words_bytes(lod_table_words(lods)),
    ensures
        lods_at(bytes, base, lods.len() as int) == lods,
{
    let back = lods_at(bytes, base, lods.len() as int);
    assert forall|i: int| 0 <= i < lods.len() implies #[trigger] back[i] == lods[i] by {
        lod_round_trips(lods, bytes, base, i);
    }
    assert(back =~= lods);
}

/// A table of pages is read back as it was written.
proof fn lemma_pages_read_back(pages: Seq<PackPage>, bytes: Seq<u8>, base: int)
    requires
        0 <= base,
        base + 32 * pages.len() <= bytes.len(),
        bytes.subrange(base, base + 32 * pages.len()) == words_bytes(page_table_words(pages)),
    ensures
        pages_at(bytes, base, pages.len() as int) == pages,
{
    let back = pages_at(bytes, base, pages.len() as int);
    assert forall|i: int| 0 <= i < pages.len() implies #[trigger] back[i] == pages[i] by {
        page_round_trips(pages, bytes, base, i);
    }
    assert(back =~= pages);
}

/// Reading the index of a written pack gives back what was planned: every chunk, every level of
/// detail, every page, and every field of the header.
pub proof fn written_index_reads_back(
    path: Seq<char>,
    plan: PackPlan,
    payload_len: usize,
    table: ChunkTable,
    degree: i32,
    page_splats: u32,
    contents: PackContents,
)
    requires
        is_plan(plan, payload_len, table.entries@, table.stride, degree, page_splats),
        pack_fits(payload_len, table.entries@, table.stride, degree, page_splats),
    ensures
        parsed_index(path, plan_image(plan, table, contents)) == Ok::<PackIndexView, PackError>(
            plan_index(path, plan, table, contents),
        ),
{
    let image = plan_image(plan, table, contents);
    let h = plan_header(plan, table, contents.ranges);
    let header = header_bytes(h);
    let chunks = words_bytes(chunk_table_words(plan.chunks@));
    let lods = words_bytes(lod_table_words(plan.lods@));
    let pages = words_bytes(page_table_words(plan.pages@));
    lemma_tables_len(plan, payload_len, table, degree, page_splats, contents);
    lemma_layout_grows(
        table.entries@,
        table.entries@.len(),
        table.entries@.len(),
        page_limit(page_splats),
    );
    let payload = payload_bytes(
        table.entries@,
        plan.lods@,
        plan.pages@,
        contents,
        plan.sh_degree_available as int,
        plan.pages@.len(),
    );
    lemma_five_parts(header, chunks, lods, pages, payload);
    header_round_trips(h, image);
    let lod_start = plan.node_lod_table_offset as int;
    let page_start = plan.page_table_offset as int;
    lemma_chunks_read_back(plan.chunks@, image, 160);
    lemma_lods_read_back(plan.lods@, image, lod_start);
    lemma_pages_read_back(plan.pages@, image, page_start);
    assert(parsed_index(path, image) == parsed_tables(
        path,
        h,
        image,
        160,
        image,
        lod_start,
        image,
        page_start,
    ));
}

/// A run of records is as long as its records together.
proof fn lemma_run_len(records: Seq<QuantizedSplat>, indices: Seq<int>, degree: int)
    ensures
        record_run(records, indices, degree).len() == indices.len() * record_size(degree),
    decreases indices.len(),
{
    let size = record_size(degree);
    if indices.len() > 0 {
        lemma_run_len(records, indices.drop_last(), degree);
        assert(indices.len() * size == (indices.len() - 1) * size + size) by (nonlinear_arith);
    } else {
        assert(indices.len() * size == 0) by (nonlinear_arith)
            requires
                indices.len() == 0,
        ;
    }
}

/// A page is as long as its records together.
proof fn lemma_page_len(
    plan: PackPlan,
    entries: Seq<ChunkEntry>,
    contents: PackContents,
    page: PackPage,
    page_splats: int,
    degree: int,
)
    requires
        page_nested(plan.lods@, page, page_splats),
        plan.lods@[page.lod_index as int].count <= entries[plan.lods@[page.lod_index as int].chunk_index as int].count,
    ensures
        page_bytes(entries, plan.lods@, contents, page, degree).len() == page.count * record_size(
            degree,
        ),
{
    let l = page.lod_index as int;
    let lod = plan.lods@[l];
    let entry = entries[lod.chunk_index as int];
    lod_sample_is_selection(entry.count as int, lod.count as int, contents.lod_cells@[l]@);
    let indices = lod_sources(entries, plan.lods@, contents, l).subrange(
        page.start_in_lod as int,
        page.start_in_lod + page.count,
    );
    lemma_run_len(contents.records@, indices, degree);
}

/// The records of the first `n` pages fill the bytes that the plan gives them, and each page's
/// records stand where the plan puts them.
proof fn lemma_payload_parts(
    plan: PackPlan,
    entries: Seq<ChunkEntry>,
    contents: PackContents,
    page_splats: int,
    degree: int,
    n: nat,
    p: int,
)
    requires
        n <= plan.pages@.len(),
        forall|l: int|
            0 <= l < plan.lods@.len() ==> (#[trigger] plan.lods@[l]).count
                <= entries[plan.lods@[l].chunk_index as int].count,
        forall|q: int|
            0 <= q < plan.pages@.len() ==> page_nested(
                plan.lods@,
                #[trigger] plan.pages@[q],
                page_splats,
            ),
    ensures
        ({
            let all = payload_bytes(entries, plan.lods@, plan.pages@, contents, degree, n);
            let size = record_size(degree);
            &&& all.len() == size * records_before(plan.pages@, n)
            &&& 0 <= p < n ==> 0 <= size * records_before(plan.pages@, p as nat) && size
                * records_before(plan.pages@, p as nat) + size * plan.pages@[p].count <= all.len()
                && all.subrange(
                size * records_before(plan.pages@, p as nat),
                size * records_before(plan.pages@, p as nat) + size * plan.pages@[p].count,
            ) == page_bytes(entries, plan.lods@, contents, plan.pages@[p], degree)
        }),
    decreases n,
{
    let size = record_size(degree);
    let all = payload_bytes(entries, plan.lods@, plan.pages@, contents, degree, n);
    if n == 0 {
        assert(size * records_before(plan.pages@, 0) == 0) by (nonlinear_arith)
            requires
                records_before(plan.pages@, 0) == 0,
        ;
    } else {
        let m = (n - 1) as nat;
        let page = plan.pages@[m as int];
        let prev = payload_bytes(entries, plan.lods@, plan.pages@, contents, degree, m);
        let more = page_bytes(entries, plan.lods@, contents, page, degree);
        lemma_payload_parts(plan, entries, contents, page_splats, degree, m, p);
        assert(page_nested(plan.lods@, page, page_splats));
        assert(plan.lods@[page.lod_index as int].count
            <= entries[plan.lods@[page.lod_index as int].chunk_index as int].count);
        lemma_page_len(plan, entries, contents, page, page_splats, degree);
        let before = records_before(plan.pages@, m);
        assert(size * (before + page.count) == size * before + page.count * size)
            by (nonlinear_arith);
        assert(size * page.count == page.count * size) by (nonlinear_arith);
        if p == m {
            assert(all.subrange(prev.len() as int, (prev.len() + more.len()) as int) =~= more);
        } else if 0 <= p < m {
            let start = size * records_before(plan.pages@, p as nat);
            let end = start + size * plan.pages@[p].count;
            assert(all.subrange(start, end) =~= prev.subrange(start, end));
        }
    }
}

/// Reading a page of a written pack gives back the records of its splats.
pub proof fn written_page_reads_back(
    plan: PackPlan,
    payload_len: usize,
    table: ChunkTable,
    degree: i32,
    page_splats: u32,
    contents: PackContents,
    page_index: u32,
)
    requires
        is_plan(plan, payload_len, table.entries@, table.stride, degree, page_splats),
        makes_pack(payload_len, table, degree, page_splats),
        page_index < plan.pages@.len(),
    ensures
        parsed_page(plan.pages@, plan_image(plan, table, contents), page_index) == Ok::<
            Seq<u8>,
            PackError,
        >(
            page_bytes(
                table.entries@,
                plan.lods@,
                contents,
                plan.pages@[page_index as int],
                plan.sh_degree_available as int,
            ),
        ),
{
    let whole = table_layout(table.entries@, page_splats);
    let size = stored_record_size(degree, table.stride);
    let p = page_index as int;
    let page = plan.pages@[p];
    let image = plan_image(plan, table, contents);
    let n = plan.pages@.len();
    lemma_tables_len(plan, payload_len, table, degree, page_splats, contents);
    lemma_plan_nested(plan, payload_len, table.entries@, table.stride, degree, page_splats);
    assert forall|l: int| 0 <= l < plan.lods@.len() implies (#[trigger] plan.lods@[l]).count
        <= table.entries@[plan.lods@[l].chunk_index as int].count by {
        assert(crate::gsplat_pack::layout::lod_nested(
            table.entries@,
            table.entries@.len() as int,
            plan.lods@[l],
        ));
    }
    lemma_payload_parts(
        plan,
        table.entries@,
        contents,
        page_limit(page_splats),
        plan.sh_degree_available as int,
        n,
        p,
    );
    lemma_placed_records(plan.pages@, whole.pages, n);
    lemma_placed_records(plan.pages@, whole.pages, p as nat);
    lemma_records_grow(whole.pages, p as nat, n);
    let start = size * records_before(whole.pages, p as nat);
    assert(start <= size * records_before(whole.pages, n)) by (nonlinear_arith)
        requires
            records_before(whole.pages, p as nat) <= records_before(whole.pages, n),
            size >= 0,
            start == size * records_before(whole.pages, p as nat),
    ;
    assert(page.byte_offset == payload_start(whole) + start);
    assert(crate::gsplat_pack::layout::page_nested(plan.lods@, page, page_limit(page_splats)));
    assert(whole.pages[p].count * size == size * page.count) by (nonlinear_arith)
        requires
            whole.pages[p].count == page.count,
    ;
    lemma_placed_len(
        plan,
        payload_len,
        table,
        degree,
        page_splats,
        p,
    );
    let payload = payload_bytes(
        table.entries@,
        plan.lods@,
        plan.pages@,
        contents,
        plan.sh_degree_available as int,
        n,
    );
    let from = page.byte_offset as int;
    let to = from + page.byte_len;
    assert(page.byte_len > 0) by (nonlinear_arith)
        requires
            page.byte_len == page.count * size,
            page.count >= 1,
            size >= 24,
    ;
    assert(image.subrange(from, to) =~= payload.subrange(start, start + size * page.count));
}

/// Placing pages keeps how many records they hold.
proof fn lemma_placed_records(pages: Seq<PackPage>, before: Seq<PackPage>, n: nat)
    requires
        pages.len() == before.len(),
        n <= pages.len(),
        forall|i: int| 0 <= i < pages.len() ==> (#[trigger] pages[i]).count == before[i].count,
    ensures
        records_before(pages, n) == records_before(before, n),
    decreases n,
{
    if n > 0 {
        lemma_placed_records(pages, before, (n - 1) as nat);
        assert(pages[n - 1].count == before[n - 1].count);
    }
}

/// The planned byte length of a page is exact.
proof fn lemma_placed_len(
    plan: PackPlan,
    payload_len: usize,
    table: ChunkTable,
    degree: i32,
    page_splats: u32,
    p: int,
)
    requires
        is_plan(plan, payload_len, table.entries@, table.stride, degree, page_splats),
        makes_pack(payload_len, table, degree, page_splats),
        0 <= p < plan.pages@.len(),
    ensures
        plan.pages@[p].byte_len == plan.pages@[p].count * stored_record_size(degree, table.stride),
{
    let whole = table_layout(table.entries@, page_splats);
    lemma_layout_grows(
        table.entries@,
        table.entries@.len(),
        table.entries@.len(),
        page_limit(page_splats),
    );
    crate::gsplat_pack::layout::layout_is_nested(
        table.entries@,
        table.entries@.len(),
        page_limit(page_splats),
    );
    crate::gsplat_pack::layout::lemma_page_bytes_fit(
        table.entries@,
        page_splats,
        table.stride,
        whole,
        p,
        stored_record_size(degree, table.stride),
    );
}

} // verus!
