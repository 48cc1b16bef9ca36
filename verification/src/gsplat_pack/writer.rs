//! Writing a pack as one run of bytes.

use crate::bytes::{lemma_words_bytes_concat, push_word, words_bytes};
use crate::chunking::{effective_splat_stride, ChunkEntry, ChunkTable};
use crate::floats::F32;
use crate::gsplat_pack::format::{
    chunk_table_words, chunk_words, header_bytes, header_words, lod_table_words, lod_words, magic,
    page_table_words, page_words,
};
use crate::gsplat_pack::layout::{
    effective_stride, is_plan, layout_is_nested, lemma_layout_grows, lod_nested, pack_fits,
    page_limit, page_nested, page_overflows, plan_pack, stored_degree, stored_sh_degree,
    table_layout, PackPlan,
};
use crate::gsplat_pack::laws::{plan_index, written_index_reads_back};
use crate::gsplat_pack::ranges::{raw_ranges, settled_ranges, NarrowRanges};
use crate::gsplat_pack::reader::read_pack_index;
use crate::gsplat_pack::records::{
    encode_record, lod_sample, lod_sample_is_selection, select_lod_source_indices, splat_record,
    QuantizedSplat,
};
use crate::gsplat_pack::{
    sh_count, GsplatPackIndex, PackChunk, PackError, PackHeader, PackNodeLod, PackPage, QuantizationRanges,
    DEFAULT_LOD_LEVELS, ENCODING_PACKED_RGBA8, VERSION,
};
use vstd::prelude::*;

verus! {

/// Appends the words, one after the other.
fn push_words(out: &mut Vec<u8>, words: &[u32])
    ensures
        final(out)@ == old(out)@ + words_bytes(words@),
{
    let ghost before = out@;
    let mut i: usize = 0;
    assert(words_bytes(words@.take(0)) =~= Seq::<u8>::empty());
    assert(before + Seq::<u8>::empty() =~= before);
    while i < words.len()
        invariant
            i <= words@.len(),
            out@ == before + words_bytes(words@.take(i as int)),
        decreases words@.len() - i,
    {
        push_word(out, words[i]);
        proof {
            let done = words@.take(i as int);
            assert(words@.take(i + 1) =~= done + seq![words@[i as int]]);
            lemma_words_bytes_concat(done, seq![words@[i as int]]);
            assert(out@ =~= before + words_bytes(words@.take(i + 1)));
        }
        i = i + 1;
    }
    assert(words@.take(words@.len() as int) =~= words@);
}

/// Appends the header.
pub fn write_header(out: &mut Vec<u8>, header: &PackHeader)
    ensures
        final(out)@ == old(out)@ + header_bytes(*header),
{
    let ghost before = out@;
    out.push(0x47);
    out.push(0x53);
    out.push(0x50);
    out.push(0x41);
    out.push(0x43);
    out.push(0x4b);
    out.push(0x31);
    out.push(0x00);
    assert(out@ =~= before + magic());
    let words: [u32; 38] = [
        VERSION,
        header.point_count,
        header.stride,
        header.sh_degree_available,
        header.chunk_size.bits,
        header.grid_origin[0].bits,
        header.grid_origin[1].bits,
        header.grid_origin[2].bits,
        header.chunk_count,
        header.page_count,
        (header.chunk_table_offset % 0x1_0000_0000) as u32,
        (header.chunk_table_offset / 0x1_0000_0000) as u32,
        (header.page_table_offset % 0x1_0000_0000) as u32,
        (header.page_table_offset / 0x1_0000_0000) as u32,
        (header.payload_offset % 0x1_0000_0000) as u32,
        (header.payload_offset / 0x1_0000_0000) as u32,
        (header.node_lod_table_offset % 0x1_0000_0000) as u32,
        (header.node_lod_table_offset / 0x1_0000_0000) as u32,
        header.node_lod_count,
        header.lod_levels,
        0,
        0,
        ENCODING_PACKED_RGBA8,
        header.record_bytes,
        header.ranges.position_min[0].bits,
        header.ranges.position_min[1].bits,
        header.ranges.position_min[2].bits,
        header.ranges.position_max[0].bits,
        header.ranges.position_max[1].bits,
        header.ranges.position_max[2].bits,
        header.ranges.scale_min[0].bits,
        header.ranges.scale_min[1].bits,
        header.ranges.scale_min[2].bits,
        header.ranges.scale_max[0].bits,
        header.ranges.scale_max[1].bits,
        header.ranges.scale_max[2].bits,
        header.ranges.sh_min.bits,
        header.ranges.sh_max.bits,
    ];
    proof {
        reveal(header_words);
    }
    assert(words@ =~= header_words(*header));
    push_words(out, words.as_slice());
    assert(out@ =~= before + header_bytes(*header));
}

/// Appends a chunk record.
pub fn write_chunk_record(out: &mut Vec<u8>, chunk: &PackChunk)
    ensures
        final(out)@ == old(out)@ + words_bytes(chunk_words(*chunk)),
{
    let words: [u32; 16] = [
        chunk.entry.grid[0] as u32,
        chunk.entry.grid[1] as u32,
        chunk.entry.grid[2] as u32,
        chunk.entry.aabb_min[0].bits,
        chunk.entry.aabb_min[1].bits,
        chunk.entry.aabb_min[2].bits,
        chunk.entry.aabb_max[0].bits,
        chunk.entry.aabb_max[1].bits,
        chunk.entry.aabb_max[2].bits,
        chunk.entry.offset,
        chunk.entry.count,
        chunk.first_page,
        chunk.page_count,
        0,
        0,
        0,
    ];
    assert(words@ =~= chunk_words(*chunk));
    push_words(out, words.as_slice());
}

/// Appends a level-of-detail record.
pub fn write_node_lod_record(out: &mut Vec<u8>, lod: &PackNodeLod)
    ensures
        final(out)@ == old(out)@ + words_bytes(lod_words(*lod)),
{
    let words: [u32; 8] = [
        lod.chunk_index,
        lod.lod_level,
        lod.count,
        lod.first_page,
        lod.page_count,
        0,
        0,
        0,
    ];
    assert(words@ =~= lod_words(*lod));
    push_words(out, words.as_slice());
}

/// Appends a page record.
pub fn write_page_record(out: &mut Vec<u8>, page: &PackPage)
    ensures
        final(out)@ == old(out)@ + words_bytes(page_words(*page)),
{
    let words: [u32; 8] = [
        page.chunk_index,
        page.start_in_lod,
        page.count,
        page.lod_index,
        (page.byte_offset % 0x1_0000_0000) as u32,
        (page.byte_offset / 0x1_0000_0000) as u32,
        page.byte_len,
        0,
    ];
    assert(words@ =~= page_words(*page));
    push_words(out, words.as_slice());
}

/// Appends the three tables.
fn write_tables(
    out: &mut Vec<u8>,
    chunks: &Vec<PackChunk>,
    lods: &Vec<PackNodeLod>,
    pages: &Vec<PackPage>,
)
    ensures
        final(out)@ == old(out)@ + words_bytes(chunk_table_words(chunks@)) + words_bytes(
            lod_table_words(lods@),
        ) + words_bytes(page_table_words(pages@)),
{
    let ghost before = out@;
    let mut i: usize = 0;
    assert(before =~= before + words_bytes(chunk_table_words(chunks@.take(0))));
    while i < chunks.len()
        invariant
            i <= chunks@.len(),
            out@ == before + words_bytes(chunk_table_words(chunks@.take(i as int))),
        decreases chunks@.len() - i,
    {
        write_chunk_record(out, &chunks[i]);
        proof {
            let done = chunk_table_words(chunks@.take(i as int));
            let more = chunk_words(chunks@[i as int]);
            assert(chunk_table_words(chunks@.take(i + 1)) =~= done + more);
            lemma_words_bytes_concat(done, more);
            assert(out@ =~= before + words_bytes(chunk_table_words(chunks@.take(i + 1))));
        }
        i = i + 1;
    }
    assert(chunks@.take(chunks@.len() as int) =~= chunks@);
    let ghost before = out@;
    i = 0;
    assert(before =~= before + words_bytes(lod_table_words(lods@.take(0))));
    while i < lods.len()
        invariant
            i <= lods@.len(),
            out@ == before + words_bytes(lod_table_words(lods@.take(i as int))),
        decreases lods@.len() - i,
    {
        write_node_lod_record(out, &lods[i]);
        proof {
            let done = lod_table_words(lods@.take(i as int));
            let more = lod_words(lods@[i as int]);
            assert(lod_table_words(lods@.take(i + 1)) =~= done + more);
            lemma_words_bytes_concat(done, more);
            assert(out@ =~= before + words_bytes(lod_table_words(lods@.take(i + 1))));
        }
        i = i + 1;
    }
    assert(lods@.take(lods@.len() as int) =~= lods@);
    let ghost before = out@;
    i = 0;
    assert(before =~= before + words_bytes(page_table_words(pages@.take(0))));
    while i < pages.len()
        invariant
            i <= pages@.len(),
            out@ == before + words_bytes(page_table_words(pages@.take(i as int))),
        decreases pages@.len() - i,
    {
        write_page_record(out, &pages[i]);
        proof {
            let done = page_table_words(pages@.take(i as int));
            let more = page_words(pages@[i as int]);
            assert(page_table_words(pages@.take(i + 1)) =~= done + more);
            lemma_words_bytes_concat(done, more);
            assert(out@ =~= before + words_bytes(page_table_words(pages@.take(i + 1))));
        }
        i = i + 1;
    }
    assert(pages@.take(pages@.len() as int) =~= pages@);
}

/// What a pack holds besides its plan: the quantized splats, the ranges they were quantized over,
/// and for each level of detail the cell of every splat of its chunk.
#[derive(Clone, Debug)]
pub struct PackContents {
    pub ranges: QuantizationRanges,
    pub records: Vec<QuantizedSplat>,
    pub lod_cells: Vec<Vec<[i32; 3]>>,
}

/// Whether the contents belong to a pack with these chunks and levels of detail. The cells of a
/// level that keeps its whole chunk are never read.
pub open spec fn contents_match(
    contents: PackContents,
    entries: Seq<ChunkEntry>,
    lods: Seq<PackNodeLod>,
    point_count: int,
    degree: int,
) -> bool {
    &&& contents.records@.len() == point_count
    &&& forall|i: int|
        0 <= i < point_count ==> (#[trigger] contents.records@[i]).sh@.len() == sh_count(degree)
    &&& contents.lod_cells@.len() == lods.len()
    &&& forall|l: int|
        0 <= l < lods.len() && lods[l].count < entries[lods[l].chunk_index as int].count ==> (
        #[trigger] contents.lod_cells@[l])@.len() == entries[lods[l].chunk_index as int].count
}

/// The payload indices of the splats that level of detail `l` keeps.
pub open spec fn lod_sources(
    entries: Seq<ChunkEntry>,
    lods: Seq<PackNodeLod>,
    contents: PackContents,
    l: int,
) -> Seq<int> {
    let entry = entries[lods[l].chunk_index as int];
    let sample = lod_sample(entry.count as int, lods[l].count as int, contents.lod_cells@[l]@);
    Seq::new(sample.len(), |i: int| entry.offset + sample[i])
}

/// The records of the given splats, one after the other.
pub open spec fn record_run(
    records: Seq<QuantizedSplat>,
    indices: Seq<int>,
    degree: int,
) -> Seq<u8>
    decreases indices.len(),
{
    if indices.len() == 0 {
        Seq::empty()
    } else {
        record_run(records, indices.drop_last(), degree) + splat_record(
            records[indices.last()],
            degree,
        )
    }
}

/// The bytes of one page.
pub open spec fn page_bytes(
    entries: Seq<ChunkEntry>,
    lods: Seq<PackNodeLod>,
    contents: PackContents,
    page: PackPage,
    degree: int,
) -> Seq<u8> {
    record_run(
        contents.records@,
        lod_sources(entries, lods, contents, page.lod_index as int).subrange(
            page.start_in_lod as int,
            page.start_in_lod + page.count,
        ),
        degree,
    )
}

/// The bytes of the first `n` pages.
pub open spec fn payload_bytes(
    entries: Seq<ChunkEntry>,
    lods: Seq<PackNodeLod>,
    pages: Seq<PackPage>,
    contents: PackContents,
    degree: int,
    n: nat,
) -> Seq<u8>
    decreases n,
{
    if n == 0 {
        Seq::empty()
    } else {
        payload_bytes(entries, lods, pages, contents, degree, (n - 1) as nat) + page_bytes(
            entries,
            lods,
            contents,
            pages[n - 1],
            degree,
        )
    }
}

/// The header of a planned pack.
pub open spec fn plan_header(
    plan: PackPlan,
    table: ChunkTable,
    ranges: QuantizationRanges,
) -> PackHeader {
    PackHeader {
        point_count: plan.point_count,
        stride: plan.stride as u32,
        record_bytes: plan.record_bytes as u32,
        sh_degree_available: plan.sh_degree_available as u32,
        chunk_size: table.chunk_size,
        grid_origin: table.grid_origin,
        ranges,
        chunk_count: plan.chunks@.len() as u32,
        node_lod_count: plan.lods@.len() as u32,
        lod_levels: DEFAULT_LOD_LEVELS,
        page_count: plan.pages@.len() as u32,
        chunk_table_offset: 160,
        node_lod_table_offset: plan.node_lod_table_offset,
        page_table_offset: plan.page_table_offset,
        payload_offset: plan.payload_offset,
    }
}

/// The bytes of a planned pack.
pub open spec fn plan_image(plan: PackPlan, table: ChunkTable, contents: PackContents) -> Seq<u8> {
    header_bytes(plan_header(plan, table, contents.ranges)) + words_bytes(
        chunk_table_words(plan.chunks@),
    ) + words_bytes(lod_table_words(plan.lods@)) + words_bytes(page_table_words(plan.pages@))
        + payload_bytes(
        table.entries@,
        plan.lods@,
        plan.pages@,
        contents,
        plan.sh_degree_available as int,
        plan.pages@.len(),
    )
}

/// Whether some chunk that is not empty reaches past the last splat.
pub open spec fn reaches_past(entries: Seq<ChunkEntry>, point_count: int) -> bool {
    exists|i: int|
        0 <= i < entries.len() && (#[trigger] entries[i]).count > 0 && entries[i].offset
            + entries[i].count > point_count
}

/// Whether some chunk that is not empty reaches past the last splat.
fn has_far_chunk(entries: &Vec<ChunkEntry>, point_count: u32) -> (result: bool)
    ensures
        result == reaches_past(entries@, point_count as int),
{
    let mut i: usize = 0;
    while i < entries.len()
        invariant
            i <= entries@.len(),
            forall|k: int|
                0 <= k < i && (#[trigger] entries@[k]).count > 0 ==> entries@[k].offset
                    + entries@[k].count <= point_count,
        decreases entries@.len() - i,
    {
        let entry: ChunkEntry = entries[i];
        if entry.count > 0 && entry.offset as u64 + entry.count as u64 > point_count as u64 {
            assert(entries@[i as int].count > 0);
            return true;
        }
        i = i + 1;
    }
    false
}

/// Appends the records of the splats whose indices stand in `indices[start..end]`.
fn write_packed_records_by_index(
    out: &mut Vec<u8>,
    records: &Vec<QuantizedSplat>,
    indices: &Vec<u32>,
    start: usize,
    end: usize,
    sh_degree_available: i32,
    Ghost(sources): Ghost<Seq<int>>,
)
    requires
        start <= end <= indices@.len(),
        sources.len() == indices@.len(),
        forall|i: int| 0 <= i < sources.len() ==> #[trigger] sources[i] == indices@[i],
        forall|i: int| 0 <= i < sources.len() ==> 0 <= #[trigger] sources[i] < records@.len(),
        forall|i: int|
            0 <= i < records@.len() ==> (#[trigger] records@[i]).sh@.len() == sh_count(
                sh_degree_available as int,
            ),
    ensures
        final(out)@ == old(out)@ + record_run(
            records@,
            sources.subrange(start as int, end as int),
            sh_degree_available as int,
        ),
{
    let ghost before = out@;
    let mut i: usize = start;
    assert(sources.subrange(start as int, start as int).len() == 0);
    assert(before =~= before + Seq::<u8>::empty());
    while i < end
        invariant
            start <= i <= end <= indices@.len(),
            sources.len() == indices@.len(),
            forall|k: int| 0 <= k < sources.len() ==> #[trigger] sources[k] == indices@[k],
            forall|k: int| 0 <= k < sources.len() ==> 0 <= #[trigger] sources[k] < records@.len(),
            forall|k: int|
                0 <= k < records@.len() ==> (#[trigger] records@[k]).sh@.len() == sh_count(
                    sh_degree_available as int,
                ),
            out@ == before + record_run(
                records@,
                sources.subrange(start as int, i as int),
                sh_degree_available as int,
            ),
        decreases end - i,
    {
        assert(sources[i as int] == indices@[i as int]);
        let mut record: Vec<u8> = encode_record(&records[indices[i] as usize], sh_degree_available);
        out.append(&mut record);
        proof {
            let more = sources.subrange(start as int, i + 1);
            assert(more.drop_last() =~= sources.subrange(start as int, i as int));
            assert(more.last() == sources[i as int]);
            assert(out@ =~= before + record_run(records@, more, sh_degree_available as int));
        }
        i = i + 1;
    }
}

/// The payload indices that every level of detail keeps.
fn all_sources(entries: &Vec<ChunkEntry>, lods: &Vec<PackNodeLod>, contents: &PackContents) -> (sources:
    Vec<Vec<u32>>)
    requires
        contents.lod_cells@.len() == lods@.len(),
        forall|l: int|
            0 <= l < lods@.len() ==> (#[trigger] lods@[l]).chunk_index < entries@.len()
                && lods@[l].count <= entries@[lods@[l].chunk_index as int].count
                && entries@[lods@[l].chunk_index as int].offset
                + entries@[lods@[l].chunk_index as int].count <= u32::MAX,
        forall|l: int|
            0 <= l < lods@.len() && lods@[l].count < entries@[lods@[l].chunk_index as int].count
                ==> (#[trigger] contents.lod_cells@[l])@.len()
                == entries@[lods@[l].chunk_index as int].count,
    ensures
        sources@.len() == lods@.len(),
        forall|l: int|
            0 <= l < lods@.len() ==> same_indices(
                (#[trigger] sources@[l])@,
                lod_sources(entries@, lods@, *contents, l),
            ),
{
    let mut sources: Vec<Vec<u32>> = Vec::new();
    let mut l: usize = 0;
    while l < lods.len()
        invariant
            l <= lods@.len(),
            contents.lod_cells@.len() == lods@.len(),
            forall|k: int|
                0 <= k < lods@.len() ==> (#[trigger] lods@[k]).chunk_index < entries@.len()
                    && lods@[k].count <= entries@[lods@[k].chunk_index as int].count
                    && entries@[lods@[k].chunk_index as int].offset
                    + entries@[lods@[k].chunk_index as int].count <= u32::MAX,
            forall|k: int|
                0 <= k < lods@.len() && lods@[k].count
                    < entries@[lods@[k].chunk_index as int].count ==> (
                #[trigger] contents.lod_cells@[k])@.len()
                    == entries@[lods@[k].chunk_index as int].count,
            sources@.len() == l,
            forall|k: int|
                0 <= k < l ==> same_indices(
                    (#[trigger] sources@[k])@,
                    lod_sources(entries@, lods@, *contents, k),
                ),
        decreases lods@.len() - l,
    {
        let lod: PackNodeLod = lods[l];
        let entry: ChunkEntry = entries[lod.chunk_index as usize];
        assert(lods@[l as int] == lod);
        let indices: Vec<u32> = select_lod_source_indices(
            &entry,
            lod.count as usize,
            &contents.lod_cells[l],
        );
        proof {
            lod_sample_is_selection(
                entry.count as int,
                lod.count as int,
                contents.lod_cells@[l as int]@,
            );
        }
        sources.push(indices);
        l = l + 1;
    }
    sources
}

/// Whether the stored indices are the given ones.
pub open spec fn same_indices(stored: Seq<u32>, wanted: Seq<int>) -> bool {
    &&& stored.len() == wanted.len()
    &&& forall|i: int| 0 <= i < wanted.len() ==> #[trigger] wanted[i] == stored[i]
}

/// Appends the bytes of all pages.
fn write_payload(
    out: &mut Vec<u8>,
    table: &ChunkTable,
    plan: &PackPlan,
    contents: &PackContents,
    sources: &Vec<Vec<u32>>,
)
    requires
        sources@.len() == plan.lods@.len(),
        forall|l: int|
            0 <= l < plan.lods@.len() ==> same_indices(
                (#[trigger] sources@[l])@,
                lod_sources(table.entries@, plan.lods@, *contents, l),
            ),
        forall|l: int, i: int|
            0 <= l < sources@.len() && 0 <= i < sources@[l]@.len() ==> (
            #[trigger] sources@[l]@[i]) < contents.records@.len(),
        forall|i: int|
            0 <= i < contents.records@.len() ==> (#[trigger] contents.records@[i]).sh@.len()
                == sh_count(plan.sh_degree_available as int),
        forall|p: int|
            0 <= p < plan.pages@.len() ==> (#[trigger] plan.pages@[p]).lod_index
                < plan.lods@.len() && plan.pages@[p].start_in_lod + plan.pages@[p].count
                <= sources@[plan.pages@[p].lod_index as int]@.len(),
    ensures
        final(out)@ == old(out)@ + payload_bytes(
            table.entries@,
            plan.lods@,
            plan.pages@,
            *contents,
            plan.sh_degree_available as int,
            plan.pages@.len(),
        ),
{
    let ghost before = out@;
    let mut p: usize = 0;
    assert(before =~= before + Seq::<u8>::empty());
    while p < plan.pages.len()
        invariant
            p <= plan.pages@.len(),
            sources@.len() == plan.lods@.len(),
            forall|l: int|
                0 <= l < plan.lods@.len() ==> same_indices(
                    (#[trigger] sources@[l])@,
                    lod_sources(table.entries@, plan.lods@, *contents, l),
                ),
            forall|l: int, i: int|
                0 <= l < sources@.len() && 0 <= i < sources@[l]@.len() ==> (
                #[trigger] sources@[l]@[i]) < contents.records@.len(),
            forall|i: int|
                0 <= i < contents.records@.len() ==> (#[trigger] contents.records@[i]).sh@.len()
                    == sh_count(plan.sh_degree_available as int),
            forall|q: int|
                0 <= q < plan.pages@.len() ==> (#[trigger] plan.pages@[q]).lod_index
                    < plan.lods@.len() && plan.pages@[q].start_in_lod + plan.pages@[q].count
                    <= sources@[plan.pages@[q].lod_index as int]@.len(),
            out@ == before + payload_bytes(
                table.entries@,
                plan.lods@,
                plan.pages@,
                *contents,
                plan.sh_degree_available as int,
                p as nat,
            ),
        decreases plan.pages@.len() - p,
    {
        let page: PackPage = plan.pages[p];
        let l: usize = page.lod_index as usize;
        let ghost wanted = lod_sources(table.entries@, plan.lods@, *contents, l as int);
        assert(page == plan.pages@[p as int]);
        assert(same_indices(sources@[l as int]@, wanted));
        assert forall|i: int| 0 <= i < wanted.len() implies 0 <= #[trigger] wanted[i]
            < contents.records@.len() by {
            assert(wanted[i] == sources@[l as int]@[i]);
        }
        assert(sources@[l as int].len() <= usize::MAX);
        write_packed_records_by_index(
            out,
            &contents.records,
            &sources[l],
            page.start_in_lod as usize,
            page.start_in_lod as usize + page.count as usize,
            plan.sh_degree_available,
            Ghost(wanted),
        );
        p = p + 1;
        assert(out@ =~= before + payload_bytes(
            table.entries@,
            plan.lods@,
            plan.pages@,
            *contents,
            plan.sh_degree_available as int,
            p as nat,
        ));
    }
}

/// Whether the arguments make a pack.
pub open spec fn makes_pack(
    payload_len: usize,
    table: ChunkTable,
    degree: i32,
    page_splats: u32,
) -> bool {
    &&& payload_len as int % effective_stride(table.stride) == 0
    &&& !page_overflows(table.entries@, page_splats, table.stride)
    &&& pack_fits(payload_len, table.entries@, table.stride, degree, page_splats)
}

/// Encodes a pack: the planned layout, filled with the given contents.
fn encode_pack(
    payload_len: usize,
    table: &ChunkTable,
    sh_degree_available: i32,
    page_splats: u32,
    contents: &PackContents,
) -> (result: Result<(PackPlan, Vec<u8>), PackError>)
    requires
        makes_pack(payload_len, *table, sh_degree_available, page_splats) ==> contents_match(
            *contents,
            table.entries@,
            table_layout(table.entries@, page_splats).lods,
            payload_len as int / effective_stride(table.stride),
            stored_degree(sh_degree_available, table.stride),
        ),
    ensures
        ({
            let aligned = payload_len as int % effective_stride(table.stride) == 0;
            let overflows = page_overflows(table.entries@, page_splats, table.stride);
            let fits = pack_fits(
                payload_len,
                table.entries@,
                table.stride,
                sh_degree_available,
                page_splats,
            );
            let far = reaches_past(
                table.entries@,
                payload_len as int / effective_stride(table.stride),
            );
            match result {
                Err(error) => {
                    ||| error == PackError::PayloadMisaligned && !aligned
                    ||| error == PackError::PageBytesOverflow && aligned && overflows
                    ||| error == PackError::TooLarge && aligned && !overflows && !fits
                    ||| error == PackError::SourceIndexOutOfRange && aligned && !overflows && fits
                        && far
                },
                Ok(file) => {
                    &&& aligned && !overflows && fits && !far
                    &&& is_plan(
                        file.0,
                        payload_len,
                        table.entries@,
                        table.stride,
                        sh_degree_available,
                        page_splats,
                    )
                    &&& file.1@ == plan_image(file.0, *table, *contents)
                },
            }
        }),
{
    let plan: PackPlan = match plan_pack(payload_len, table, sh_degree_available, page_splats) {
        Ok(plan) => plan,
        Err(error) => return Err(error),
    };
    if has_far_chunk(&table.entries, plan.point_count) {
        return Err(PackError::SourceIndexOutOfRange);
    }
    let ghost whole = table_layout(table.entries@, page_splats);
    proof {
        lemma_plan_nested(
            plan,
            payload_len,
            table.entries@,
            table.stride,
            sh_degree_available,
            page_splats,
        );
        assert forall|l: int| 0 <= l < plan.lods@.len() implies (#[trigger] plan.lods@[l]).chunk_index
            < table.entries@.len() && plan.lods@[l].count
            <= table.entries@[plan.lods@[l].chunk_index as int].count
            && table.entries@[plan.lods@[l].chunk_index as int].offset
            + table.entries@[plan.lods@[l].chunk_index as int].count <= plan.point_count by {
            assert(lod_nested(table.entries@, table.entries@.len() as int, plan.lods@[l]));
            let entry = table.entries@[plan.lods@[l].chunk_index as int];
            assert(entry.count > 0);
        }
    }
    let sources: Vec<Vec<u32>> = all_sources(&table.entries, &plan.lods, contents);
    proof {
        assert forall|l: int, i: int|
            0 <= l < sources@.len() && 0 <= i < sources@[l]@.len() implies (
        #[trigger] sources@[l]@[i]) < contents.records@.len() by {
            let wanted = lod_sources(table.entries@, plan.lods@, *contents, l);
            assert(same_indices(sources@[l]@, wanted));
            let lod = plan.lods@[l];
            let entry = table.entries@[lod.chunk_index as int];
            let sample = lod_sample(
                entry.count as int,
                lod.count as int,
                contents.lod_cells@[l]@,
            );
            lod_sample_is_selection(
                entry.count as int,
                lod.count as int,
                contents.lod_cells@[l]@,
            );
            assert(wanted[i] == entry.offset + sample[i]);
        }
        assert forall|p: int| 0 <= p < plan.pages@.len() implies (#[trigger] plan.pages@[p]).lod_index
            < plan.lods@.len() && plan.pages@[p].start_in_lod + plan.pages@[p].count
            <= sources@[plan.pages@[p].lod_index as int]@.len() by {
            let page = plan.pages@[p];
            assert(page_nested(plan.lods@, page, page_limit(page_splats)));
            let l = page.lod_index as int;
            let lod = plan.lods@[l];
            let entry = table.entries@[lod.chunk_index as int];
            assert(same_indices(
                sources@[l]@,
                lod_sources(table.entries@, plan.lods@, *contents, l),
            ));
            lod_sample_is_selection(
                entry.count as int,
                lod.count as int,
                contents.lod_cells@[l]@,
            );
        }
    }
    let header = PackHeader {
        point_count: plan.point_count,
        stride: plan.stride as u32,
        record_bytes: plan.record_bytes as u32,
        sh_degree_available: plan.sh_degree_available as u32,
        chunk_size: table.chunk_size,
        grid_origin: table.grid_origin,
        ranges: contents.ranges,
        chunk_count: plan.chunks.len() as u32,
        node_lod_count: plan.lods.len() as u32,
        lod_levels: DEFAULT_LOD_LEVELS,
        page_count: plan.pages.len() as u32,
        chunk_table_offset: 160,
        node_lod_table_offset: plan.node_lod_table_offset,
        page_table_offset: plan.page_table_offset,
        payload_offset: plan.payload_offset,
    };
    let mut image: Vec<u8> = Vec::new();
    write_header(&mut image, &header);
    write_tables(&mut image, &plan.chunks, &plan.lods, &plan.pages);
    write_payload(&mut image, table, &plan, contents, &sources);
    assert(image@ =~= plan_image(plan, *table, *contents));
    Ok((plan, image))
}

/// In a plan every level of detail is part of its chunk and every page part of its level.
pub proof fn lemma_plan_nested(
    plan: PackPlan,
    payload_len: usize,
    entries: Seq<ChunkEntry>,
    stride: usize,
    degree: i32,
    page_splats: u32,
)
    requires
        is_plan(plan, payload_len, entries, stride, degree, page_splats),
        pack_fits(payload_len, entries, stride, degree, page_splats),
    ensures
        entries.len() <= u32::MAX,
        forall|l: int|
            0 <= l < plan.lods@.len() ==> lod_nested(
                entries,
                entries.len() as int,
                #[trigger] plan.lods@[l],
            ),
        forall|p: int|
            0 <= p < plan.pages@.len() ==> page_nested(
                plan.lods@,
                #[trigger] plan.pages@[p],
                page_limit(page_splats),
            ),
{
    let whole = table_layout(entries, page_splats);
    lemma_layout_grows(entries, entries.len(), entries.len(), page_limit(page_splats));
    layout_is_nested(entries, entries.len(), page_limit(page_splats));
    assert forall|p: int| 0 <= p < plan.pages@.len() implies page_nested(
        plan.lods@,
        #[trigger] plan.pages@[p],
        page_limit(page_splats),
    ) by {
        assert(page_nested(whole.lods, whole.pages[p], page_limit(page_splats)));
    }
}

/// A written pack: its plan, its bytes, and the index that reading them gives.
#[derive(Clone, Debug)]
pub struct PackFile {
    pub plan: PackPlan,
    pub index: GsplatPackIndex,
    pub image: Vec<u8>,
}

/// What is known of the splats of a payload that is written as a pack: which of their ranges are
/// narrow, the splats themselves, spread over the ranges, and for each level of detail the cell of
/// every splat of its chunk.
#[derive(Clone, Debug)]
pub struct PackSplats {
    pub narrow: NarrowRanges,
    pub records: Vec<QuantizedSplat>,
    pub lod_cells: Vec<Vec<[i32; 3]>>,
}

/// The ranges that the records of a payload are spread over: the extents of its splats, with the
/// narrow ones replaced.
pub open spec fn payload_ranges(
    payload: Seq<F32>,
    stride: usize,
    degree: i32,
    narrow: NarrowRanges,
) -> QuantizationRanges {
    let width = effective_stride(stride);
    let count = sh_count(stored_degree(degree, stride));
    settled_ranges(
        raw_ranges(payload, width, count, payload.len() / width as nat),
        narrow,
        count,
    )
}

/// What a pack of a payload holds: the ranges are those of the payload.
pub open spec fn payload_contents(
    payload: Seq<F32>,
    table: ChunkTable,
    degree: i32,
    splats: PackSplats,
) -> PackContents {
    PackContents {
        ranges: payload_ranges(payload, table.stride, degree, splats.narrow),
        records: splats.records,
        lod_cells: splats.lod_cells,
    }
}

/// Writes a payload as a pack and reads its index back. The ranges in the header are those of the
/// payload.
pub fn write_pack(
    path: String,
    payload: &[F32],
    table: &ChunkTable,
    sh_degree_available: i32,
    page_splats: u32,
    splats: PackSplats,
) -> (result: Result<PackFile, PackError>)
    requires
        makes_pack(payload.len(), *table, sh_degree_available, page_splats) ==> contents_match(
            payload_contents(payload@, *table, sh_degree_available, splats),
            table.entries@,
            table_layout(table.entries@, page_splats).lods,
            payload@.len() as int / effective_stride(table.stride),
            stored_degree(sh_degree_available, table.stride),
        ),
    ensures
        ({
            let contents = payload_contents(payload@, *table, sh_degree_available, splats);
            let aligned = payload@.len() as int % effective_stride(table.stride) == 0;
            let overflows = page_overflows(table.entries@, page_splats, table.stride);
            let fits = pack_fits(
                payload.len(),
                table.entries@,
                table.stride,
                sh_degree_available,
                page_splats,
            );
            let far = reaches_past(
                table.entries@,
                payload@.len() as int / effective_stride(table.stride),
            );
            match result {
                Err(error) => {
                    ||| error == PackError::PayloadMisaligned && !aligned
                    ||| error == PackError::PageBytesOverflow && aligned && overflows
                    ||| error == PackError::TooLarge && aligned && !overflows && !fits
                    ||| error == PackError::SourceIndexOutOfRange && aligned && !overflows && fits
                        && far
                },
                Ok(file) => {
                    &&& aligned && !overflows && fits && !far
                    &&& is_plan(
                        file.plan,
                        payload.len(),
                        table.entries@,
                        table.stride,
                        sh_degree_available,
                        page_splats,
                    )
                    &&& file.image@ == plan_image(file.plan, *table, contents)
                    &&& file.index@ == plan_index(path@, file.plan, *table, contents)
                },
            }
        }),
{
    let width: usize = effective_splat_stride(table.stride);
    let degree: i32 = stored_sh_degree(sh_degree_available, table.stride);
    let ranges: QuantizationRanges = QuantizationRanges::from_payload(payload, width, degree)
        .settle(&splats.narrow, degree);
    let contents = PackContents {
        ranges,
        records: splats.records,
        lod_cells: splats.lod_cells,
    };
    assert(contents == payload_contents(payload@, *table, sh_degree_available, splats));
    let (plan, image): (PackPlan, Vec<u8>) = match encode_pack(
        payload.len(),
        table,
        sh_degree_available,
        page_splats,
        &contents,
    ) {
        Ok(file) => file,
        Err(error) => return Err(error),
    };
    proof {
        written_index_reads_back(
            path@,
            plan,
            payload.len(),
            *table,
            sh_degree_available,
            page_splats,
            contents,
        );
    }
    match read_pack_index(path, image.as_slice()) {
        Ok(index) => Ok(PackFile { plan, index, image }),
        Err(error) => Err(error),
    }
}

} // verus!
