//! Packs: what is written is found again, record by record, and nothing is left out.

use crate::bytes::{word_at, words_bytes};
use crate::chunking::{ChunkEntry, ChunkTable};
use crate::extents::{column, highest, lowest};
use crate::floats::F32;
use crate::gsplat_pack::format::{
    chunk_table_words, chunk_words, header_bytes, header_words, lod_table_words, lod_words, magic,
    page_table_words, page_words, parsed_header,
};
use crate::gsplat_pack::laws::written_page_reads_back;
use crate::gsplat_pack::layout::{
    effective_stride, entry_lods, is_plan, layout, layout_is_nested, least, lemma_layout_grows,
    lemma_lod_counts_bounds, level_limit, lod_counts, lod_pages, page_limit, page_overflows,
    pages_for, payload_start, records_before, stored_degree, stored_record_size, table_layout,
    with_lods, Layout, PackPlan,
};
use crate::gsplat_pack::ranges::{center_bounds, coefficients, present_splats, NarrowRanges};
use crate::gsplat_pack::reader::parsed_page;
use crate::gsplat_pack::records::{
    cell_firsts, cell_others, first_of_cell, half_byte, lemma_firsts_and_others, lod_sample,
    lod_sample_is_selection, splat_record, QuantizedSplat,
};
use crate::gsplat_pack::writer::{
    lod_sources, makes_pack, payload_ranges, plan_header, plan_image, record_run, PackContents,
};
use crate::gsplat_pack::{
    record_size, sh_count, PackChunk, PackError, PackHeader, PackNodeLod, PackPage,
};
use crate::laws::chunks::width_of;
use crate::laws::numbers::{columns_are_enclosed, extremes_enclose_and_are_attained, is_among};
use crate::laws::render::{coefficients_up_to, degrees_count_their_coefficients};
use crate::node::render_build::half_at;
use vstd::arithmetic::div_mod::lemma_fundamental_div_mod;
use vstd::prelude::*;

verus! {

/// A record gives its splat back, field by field, where the shader looks for it: position, scale,
/// rotation, color, and every coefficient. What is left of the record is zero.
pub proof fn record_gives_the_splat_back(splat: QuantizedSplat, degree: int, k: int)
    requires
        0 <= degree <= 3,
        splat.sh@.len() == coefficients_up_to(degree),
        0 <= k,
    ensures
        ({
            let record = splat_record(splat, degree);
            &&& record.len() == record_size(degree)
            &&& half_at(record, 0) == splat.position[0]
            &&& half_at(record, 2) == splat.position[1]
            &&& half_at(record, 4) == splat.position[2]
            &&& half_at(record, 6) == splat.scale[0]
            &&& half_at(record, 8) == splat.scale[1]
            &&& half_at(record, 10) == splat.scale[2]
            &&& half_at(record, 12) as i16 == splat.rotation[0]
            &&& half_at(record, 14) as i16 == splat.rotation[1]
            &&& half_at(record, 16) as i16 == splat.rotation[2]
            &&& half_at(record, 18) as i16 == splat.rotation[3]
            &&& record[20] == splat.color[0]
            &&& record[21] == splat.color[1]
            &&& record[22] == splat.color[2]
            &&& record[23] == splat.color[3]
            &&& k < coefficients_up_to(degree) ==> record[24 + k] == splat.sh@[k]
            &&& 24 + coefficients_up_to(degree) <= k < record.len() ==> record[k] == 0
        }),
{
    degrees_count_their_coefficients(degree, 0);
    let record = splat_record(splat, degree);
    lemma_half(splat.position[0]);
    lemma_half(splat.position[1]);
    lemma_half(splat.position[2]);
    lemma_half(splat.scale[0]);
    lemma_half(splat.scale[1]);
    lemma_half(splat.scale[2]);
    lemma_signed_half(splat.rotation[0]);
    lemma_signed_half(splat.rotation[1]);
    lemma_signed_half(splat.rotation[2]);
    lemma_signed_half(splat.rotation[3]);
}

proof fn lemma_half(value: u16)
    ensures
        (half_byte(value, 0) + 256 * half_byte(value, 1)) as u16 == value,
{
}

proof fn lemma_signed_half(value: i16)
    ensures
        (half_byte(value as u16, 0) + 256 * half_byte(value as u16, 1)) as u16 as i16 == value,
{
    lemma_half(value as u16);
    assert((value as u16) as i16 == value) by (bit_vector);
}

/// Two splats with the same record are the same splat.
pub proof fn records_tell_splats_apart(a: QuantizedSplat, b: QuantizedSplat, degree: int)
    requires
        0 <= degree <= 3,
        a.sh@.len() == coefficients_up_to(degree),
        b.sh@.len() == coefficients_up_to(degree),
        splat_record(a, degree) == splat_record(b, degree),
    ensures
        a.position == b.position,
        a.scale == b.scale,
        a.rotation == b.rotation,
        a.color == b.color,
        a.sh@ == b.sh@,
{
    record_gives_the_splat_back(a, degree, 0);
    record_gives_the_splat_back(b, degree, 0);
    assert forall|k: int| 0 <= k < a.sh@.len() implies #[trigger] a.sh@[k] == b.sh@[k] by {
        record_gives_the_splat_back(a, degree, k);
        record_gives_the_splat_back(b, degree, k);
    }
    assert(a.sh@ =~= b.sh@);
    assert(a.position =~= b.position);
    assert(a.scale =~= b.scale);
    assert(a.rotation =~= b.rotation);
    assert(a.color =~= b.color);
}

proof fn lemma_run(records: Seq<QuantizedSplat>, indices: Seq<int>, degree: int, r: int)
    requires
        0 <= degree <= 3,
    ensures
        record_run(records, indices, degree).len() == indices.len() * record_size(degree),
        0 <= r < indices.len() ==> record_run(records, indices, degree).subrange(
            r * record_size(degree),
            r * record_size(degree) + record_size(degree),
        ) == splat_record(records[indices[r]], degree),
    decreases indices.len(),
{
    let size = record_size(degree);
    let run = record_run(records, indices, degree);
    degrees_count_their_coefficients(degree, 0);
    if indices.len() > 0 {
        let rest = indices.drop_last();
        lemma_run(records, rest, degree, r);
        assert(indices.len() * size == rest.len() * size + size) by (nonlinear_arith)
            requires
                indices.len() == rest.len() + 1,
        ;
        let last = splat_record(records[indices.last()], degree);
        if r == rest.len() {
            assert(run.subrange(r * size, r * size + size) =~= last);
        } else if 0 <= r < rest.len() {
            assert(r * size + size <= rest.len() * size && 0 <= r * size) by (nonlinear_arith)
                requires
                    0 <= r < rest.len(),
                    size >= 0,
            ;
            assert(run.subrange(r * size, r * size + size) =~= record_run(
                records,
                rest,
                degree,
            ).subrange(r * size, r * size + size));
            assert(rest[r] == indices[r]);
        }
    } else {
        assert(indices.len() * size == 0) by (nonlinear_arith)
            requires
                indices.len() == 0,
        ;
    }
}

/// The `r`-th record of a page of a written pack is that of the splat which the page's level of
/// detail keeps there.
pub proof fn pages_give_the_records_back(
    plan: PackPlan,
    payload_len: usize,
    table: ChunkTable,
    degree: i32,
    page_splats: u32,
    contents: PackContents,
    page_index: u32,
    r: int,
)
    requires
        is_plan(plan, payload_len, table.entries@, table.stride, degree, page_splats),
        makes_pack(payload_len, table, degree, page_splats),
        page_index < plan.pages@.len(),
        0 <= r < plan.pages@[page_index as int].count,
    ensures
        ({
            let page = plan.pages@[page_index as int];
            let entry = table.entries@[page.chunk_index as int];
            let lod = plan.lods@[page.lod_index as int];
            let size = plan.record_bytes as int;
            let kept = lod_sample(
                entry.count as int,
                lod.count as int,
                contents.lod_cells@[page.lod_index as int]@,
            );
            &&& parsed_page(plan.pages@, plan_image(plan, table, contents), page_index) matches Ok(
                bytes,
            ) && bytes.len() == page.count * size && bytes.subrange(r * size, r * size + size)
                == splat_record(
                contents.records@[entry.offset + kept[page.start_in_lod + r]],
                plan.sh_degree_available as int,
            )
            &&& lod.chunk_index == page.chunk_index
            &&& 0 <= page.start_in_lod + r < kept.len()
        }),
{
    let page = plan.pages@[page_index as int];
    let l = page.lod_index as int;
    let lod = plan.lods@[l];
    let entry = table.entries@[page.chunk_index as int];
    written_page_reads_back(
        plan,
        payload_len,
        table,
        degree,
        page_splats,
        contents,
        page_index,
    );
    crate::gsplat_pack::writer::lemma_plan_nested(
        plan,
        payload_len,
        table.entries@,
        table.stride,
        degree,
        page_splats,
    );
    assert(crate::gsplat_pack::layout::page_nested(plan.lods@, page, page_limit(page_splats)));
    assert(crate::gsplat_pack::layout::lod_nested(
        table.entries@,
        table.entries@.len() as int,
        lod,
    ));
    lod_sample_is_selection(entry.count as int, lod.count as int, contents.lod_cells@[l]@);
    let sources = lod_sources(table.entries@, plan.lods@, contents, l);
    let indices = sources.subrange(page.start_in_lod as int, page.start_in_lod + page.count);
    lemma_stored_degree(degree, table.stride);
    lemma_run(contents.records@, indices, plan.sh_degree_available as int, r);
    assert(indices[r] == sources[page.start_in_lod + r]);
}

proof fn lemma_stored_degree(degree: i32, stride: usize)
    ensures
        0 <= stored_degree(degree, stride) <= 3,
{
}

/// A pack stores the highest degree that is asked for and that its splats carry, and its records
/// have a byte for each coefficient.
pub proof fn packs_store_the_degree_asked_for(degree: i32, stride: usize, other: int)
    requires
        0 <= other <= 3,
    ensures
        0 <= stored_degree(degree, stride) <= 3,
        degree < 0 ==> stored_degree(degree, stride) == 0,
        degree >= 0 ==> (other <= stored_degree(degree, stride) <==> other <= degree && (other == 0
            || 18 + coefficients_up_to(other) <= width_of(stride))),
        stored_record_size(degree, stride) == record_size(stored_degree(degree, stride)),
{
    degrees_count_their_coefficients(other, width_of(stride));
}

/// The levels of detail of a chunk start with all its splats; each further level has half of those
/// before it, rounded up; they end at one splat or at the last level there may be.
pub proof fn levels_halve(count: int, levels: nat, i: int)
    requires
        1 <= count <= u32::MAX,
        levels >= 1,
    ensures
        ({
            let counts = lod_counts(count, levels);
            &&& counts[0] == count
            &&& 1 <= counts.len() <= levels
            &&& 0 <= i < counts.len() - 1 ==> counts[i] <= 2 * counts[i + 1] <= counts[i] + 1
            &&& 0 <= i < counts.len() - 1 ==> counts[i] > 1
            &&& counts.len() == levels || counts[counts.len() - 1] == 1
            &&& 0 <= i < counts.len() ==> counts[i] >= 1
        }),
        lod_counts(0, levels).len() == 0,
    decreases levels,
{
    let counts = lod_counts(count, levels);
    lemma_lod_counts_bounds(count, levels);
    if count > 1 {
        let half = (count + 1) / 2;
        let rest = lod_counts(half, (levels - 1) as nat);
        assert(forall|j: int| 0 <= j < rest.len() ==> counts[j + 1] == #[trigger] rest[j]);
        if levels > 1 {
            lemma_lod_counts_bounds(half, (levels - 1) as nat);
            levels_halve(
                half,
                (levels - 1) as nat,
                if i > 0 {
                    i - 1
                } else {
                    0
                },
            );
            assert(counts[1] == rest[0]);
            if 0 < i < counts.len() {
                assert(counts[i] == rest[i - 1]);
                if i + 1 < counts.len() {
                    assert(counts[i + 1] == rest[i]);
                }
            }
            assert(counts[counts.len() - 1] == rest[rest.len() - 1]);
        }
    }
}

/// Whether levels and pages follow each other without a gap: every level has the pages that it
/// fills, in order, each full but the last; every page belongs to the level that names it.
pub open spec fn are_paged(plan: Layout, page_splats: int) -> bool {
    &&& forall|l: int|
        0 <= l < plan.lods.len() ==> ({
            let lod = #[trigger] plan.lods[l];
            &&& lod.first_page + lod.page_count <= plan.pages.len()
            &&& lod.count <= lod.page_count * page_splats < lod.count + page_splats
            &&& lod.first_page == (if l == 0 {
                0
            } else {
                plan.lods[l - 1].first_page + plan.lods[l - 1].page_count
            })
        })
    &&& plan.pages.len() == (if plan.lods.len() == 0 {
        0
    } else {
        plan.lods[plan.lods.len() - 1].first_page + plan.lods[plan.lods.len() - 1].page_count
    })
    &&& forall|p: int|
        0 <= p < plan.pages.len() ==> page_is_in_place(plan, page_splats, #[trigger] plan.pages[p], p)
}

/// Whether page `p` holds the records of its level from where the pages before it end.
pub open spec fn page_is_in_place(plan: Layout, page_splats: int, page: PackPage, p: int) -> bool {
    &&& page.lod_index < plan.lods.len()
    &&& ({
        let lod = plan.lods[page.lod_index as int];
        let q = p - lod.first_page;
        &&& 0 <= q < lod.page_count
        &&& page.chunk_index == lod.chunk_index
        &&& page.start_in_lod == q * page_splats
        &&& page.count == (if (q + 1) * page_splats <= lod.count {
            page_splats
        } else {
            lod.count - q * page_splats
        })
        &&& page.count >= 1
    })
}

proof fn lemma_pages_for_bounds(count: int, page_splats: int)
    requires
        count >= 0,
        page_splats >= 1,
    ensures
        count <= pages_for(count, page_splats) * page_splats < count + page_splats,
        pages_for(count, page_splats) >= 0,
{
    let total = pages_for(count, page_splats);
    lemma_fundamental_div_mod(count + page_splats - 1, page_splats);
    assert(count <= total * page_splats < count + page_splats && total >= 0) by (nonlinear_arith)
        requires
            count + page_splats - 1 == page_splats * total + (count + page_splats - 1)
                % page_splats,
            0 <= (count + page_splats - 1) % page_splats < page_splats,
            count >= 0,
            page_splats >= 1,
    ;
}

proof fn lemma_lods_paged(base: Layout, chunk: int, counts: Seq<u32>, m: nat, page_splats: int)
    requires
        0 <= chunk <= u32::MAX,
        1 <= page_splats <= u32::MAX,
        m <= counts.len(),
        are_paged(base, page_splats),
        with_lods(base, chunk, counts, m, page_splats).pages.len() <= u32::MAX,
        with_lods(base, chunk, counts, m, page_splats).lods.len() <= u32::MAX,
    ensures
        are_paged(with_lods(base, chunk, counts, m, page_splats), page_splats),
    decreases m,
{
    if m > 0 {
        let prev = with_lods(base, chunk, counts, (m - 1) as nat, page_splats);
        let next = with_lods(base, chunk, counts, m, page_splats);
        lemma_lods_paged(base, chunk, counts, (m - 1) as nat, page_splats);
        let l = prev.lods.len() as int;
        let count = counts[m - 1] as int;
        let added = lod_pages(chunk, l, count, page_splats);
        let lod = next.lods[l];
        lemma_pages_for_bounds(count, page_splats);
        assert forall|k: int| 0 <= k < next.lods.len() implies ({
            let lod = #[trigger] next.lods[k];
            &&& lod.first_page + lod.page_count <= next.pages.len()
            &&& lod.count <= lod.page_count * page_splats < lod.count + page_splats
            &&& lod.first_page == (if k == 0 {
                0
            } else {
                next.lods[k - 1].first_page + next.lods[k - 1].page_count
            })
        }) by {
            if k < l {
                assert(prev.lods[k] == next.lods[k]);
            }
        }
        assert forall|p: int| 0 <= p < next.pages.len() implies page_is_in_place(
            next,
            page_splats,
            #[trigger] next.pages[p],
            p,
        ) by {
            if p < prev.pages.len() {
                assert(page_is_in_place(prev, page_splats, prev.pages[p], p));
            } else {
                let q = p - prev.pages.len();
                assert(next.pages[p] == added[q]);
                let total = pages_for(count, page_splats);
                assert(0 <= q * page_splats < count && (q + 1) * page_splats == q * page_splats
                    + page_splats) by (nonlinear_arith)
                    requires
                        0 <= q < total,
                        total * page_splats < count + page_splats,
                        page_splats >= 1,
                ;
            }
        }
    }
}

proof fn lemma_layout_paged(entries: Seq<ChunkEntry>, n: nat, page_splats: int)
    requires
        n <= entries.len() <= u32::MAX,
        1 <= page_splats <= u32::MAX,
        layout(entries, n, page_splats).lods.len() <= u32::MAX,
        layout(entries, n, page_splats).pages.len() <= u32::MAX,
    ensures
        are_paged(layout(entries, n, page_splats), page_splats),
    decreases n,
{
    if n > 0 {
        lemma_layout_grows(entries, (n - 1) as nat, n, page_splats);
        lemma_layout_paged(entries, (n - 1) as nat, page_splats);
        let counts = entry_lods(entries[n - 1]);
        let prev = layout(entries, (n - 1) as nat, page_splats);
        lemma_lods_paged(prev, n - 1, counts, counts.len(), page_splats);
        let next = with_lods(prev, n - 1, counts, counts.len(), page_splats);
        let whole = layout(entries, n, page_splats);
        assert forall|p: int| 0 <= p < whole.pages.len() implies page_is_in_place(
            whole,
            page_splats,
            #[trigger] whole.pages[p],
            p,
        ) by {
            assert(page_is_in_place(next, page_splats, next.pages[p], p));
        }
        assert forall|l: int| 0 <= l < whole.lods.len() implies ({
            let lod = #[trigger] whole.lods[l];
            &&& lod.first_page + lod.page_count <= whole.pages.len()
            &&& lod.count <= lod.page_count * page_splats < lod.count + page_splats
            &&& lod.first_page == (if l == 0 {
                0
            } else {
                whole.lods[l - 1].first_page + whole.lods[l - 1].page_count
            })
        }) by {
            assert(next.lods[l] == whole.lods[l]);
        }
    }
}

/// Whether level `l` is the first of its chunk, with all its splats, or the one after the level
/// before it, with half of that one's splats.
pub open spec fn level_is_in_place(
    entries: Seq<ChunkEntry>,
    lods: Seq<PackNodeLod>,
    lod: PackNodeLod,
    l: int,
) -> bool {
    &&& lod.chunk_index < entries.len()
    &&& lod.lod_level < 4
    &&& lod.lod_level == 0 ==> lod.count == entries[lod.chunk_index as int].count && (l > 0
        ==> lods[l - 1].chunk_index < lod.chunk_index)
    &&& lod.lod_level > 0 ==> l > 0 && lods[l - 1].chunk_index == lod.chunk_index
        && lods[l - 1].lod_level + 1 == lod.lod_level && lods[l - 1].count <= 2 * lod.count
        <= lods[l - 1].count + 1 && lods[l - 1].count > 1
}

/// Whether some level is the first of a chunk.
pub open spec fn has_levels(lods: Seq<PackNodeLod>, chunk: int) -> bool {
    exists|l: int| 0 <= l < lods.len() && (#[trigger] lods[l]).chunk_index == chunk
        && lods[l].lod_level == 0
}

proof fn lemma_levels(
    entries: Seq<ChunkEntry>,
    base: Layout,
    chunk: int,
    m: nat,
    page_splats: int,
)
    requires
        0 <= chunk < entries.len() <= u32::MAX,
        m <= entry_lods(entries[chunk]).len(),
        forall|l: int|
            0 <= l < base.lods.len() ==> level_is_in_place(
                entries,
                base.lods,
                #[trigger] base.lods[l],
                l,
            ),
        forall|l: int| 0 <= l < base.lods.len() ==> (#[trigger] base.lods[l]).chunk_index < chunk,
    ensures
        ({
            let counts = entry_lods(entries[chunk]);
            let next = with_lods(base, chunk, counts, m, page_splats);
            &&& next.lods.len() == base.lods.len() + m
            &&& forall|l: int|
                0 <= l < next.lods.len() ==> level_is_in_place(
                    entries,
                    next.lods,
                    #[trigger] next.lods[l],
                    l,
                )
            &&& forall|l: int|
                0 <= l < base.lods.len() ==> #[trigger] next.lods[l] == base.lods[l]
            &&& forall|v: int|
                0 <= v < m ==> (#[trigger] next.lods[base.lods.len() + v]).chunk_index == chunk
                    && next.lods[base.lods.len() + v].lod_level == v && next.lods[base.lods.len()
                    + v].count == counts[v]
        }),
    decreases m,
{
    let counts = entry_lods(entries[chunk]);
    lemma_lod_counts_bounds(entries[chunk].count as int, 4);
    if m > 0 {
        lemma_levels(entries, base, chunk, (m - 1) as nat, page_splats);
        let prev = with_lods(base, chunk, counts, (m - 1) as nat, page_splats);
        let next = with_lods(base, chunk, counts, m, page_splats);
        levels_halve(entries[chunk].count as int, 4, m - 1);
        if m > 1 {
            levels_halve(entries[chunk].count as int, 4, m - 2);
            assert(prev.lods[base.lods.len() + (m - 2)].count == counts[m - 2]);
        }
        assert forall|l: int| 0 <= l < next.lods.len() implies level_is_in_place(
            entries,
            next.lods,
            #[trigger] next.lods[l],
            l,
        ) by {
            if l < prev.lods.len() {
                assert(level_is_in_place(entries, prev.lods, prev.lods[l], l));
                if l > 0 {
                    assert(prev.lods[l - 1] == next.lods[l - 1]);
                }
            } else if l > 0 {
                assert(prev.lods[l - 1] == next.lods[l - 1]);
                if m == 1 {
                    assert(base.lods[l - 1].chunk_index < chunk);
                }
            }
        }
        assert forall|v: int| 0 <= v < m implies (#[trigger] next.lods[base.lods.len()
            + v]).chunk_index == chunk && next.lods[base.lods.len() + v].lod_level == v
            && next.lods[base.lods.len() + v].count == counts[v] by {
            if v < m - 1 {
                assert(prev.lods[base.lods.len() + v].lod_level == v);
            }
        }
    }
}

proof fn lemma_layout_levels(entries: Seq<ChunkEntry>, n: nat, page_splats: int)
    requires
        n <= entries.len() <= u32::MAX,
    ensures
        ({
            let whole = layout(entries, n, page_splats);
            &&& whole.chunks.len() == n
            &&& forall|c: int| 0 <= c < n ==> (#[trigger] whole.chunks[c]).entry == entries[c]
            &&& forall|l: int|
                0 <= l < whole.lods.len() ==> level_is_in_place(
                    entries,
                    whole.lods,
                    #[trigger] whole.lods[l],
                    l,
                )
            &&& forall|l: int| 0 <= l < whole.lods.len() ==> (#[trigger] whole.lods[l]).chunk_index
                < n
            &&& forall|c: int|
                0 <= c < n && (#[trigger] entries[c]).count > 0 ==> has_levels(whole.lods, c)
        }),
    decreases n,
{
    if n > 0 {
        lemma_layout_levels(entries, (n - 1) as nat, page_splats);
        let prev = layout(entries, (n - 1) as nat, page_splats);
        let whole = layout(entries, n, page_splats);
        let counts = entry_lods(entries[n - 1]);
        lemma_levels(entries, prev, n - 1, counts.len(), page_splats);
        let next = with_lods(prev, n - 1, counts, counts.len(), page_splats);
        lemma_lod_counts_bounds(entries[n - 1].count as int, 4);
        assert forall|l: int| 0 <= l < whole.lods.len() implies (#[trigger] whole.lods[l]).chunk_index
            < n by {
            if l < prev.lods.len() {
                assert(next.lods[l] == prev.lods[l]);
            } else {
                assert(next.lods[prev.lods.len() + (l - prev.lods.len())].chunk_index == n - 1);
            }
        }
        assert forall|c: int| 0 <= c < n && (#[trigger] entries[c]).count > 0 implies has_levels(
            whole.lods,
            c,
        ) by {
            if c < n - 1 {
                assert(has_levels(prev.lods, c));
                let l = choose|l: int|
                    0 <= l < prev.lods.len() && (#[trigger] prev.lods[l]).chunk_index == c
                        && prev.lods[l].lod_level == 0;
                assert(whole.lods[l] == prev.lods[l]);
            } else {
                assert(next.lods[(prev.lods.len() + 0) as int].lod_level == 0);
                assert(whole.lods[prev.lods.len() as int].chunk_index == c);
            }
        }
    }
}

/// The plan of a pack leaves nothing out: every chunk that has splats has all of them at its first
/// level, and further levels of half the size; every level fills its pages.
pub proof fn plans_leave_nothing_out(
    plan: PackPlan,
    payload_len: usize,
    table: ChunkTable,
    degree: i32,
    page_splats: u32,
)
    requires
        is_plan(plan, payload_len, table.entries@, table.stride, degree, page_splats),
        makes_pack(payload_len, table, degree, page_splats),
    ensures
        plan.chunks@.len() == table.entries@.len(),
        forall|c: int|
            0 <= c < plan.chunks@.len() ==> (#[trigger] plan.chunks@[c]).entry == table.entries@[c],
        forall|c: int|
            0 <= c < table.entries@.len() && (#[trigger] table.entries@[c]).count > 0
                ==> has_levels(plan.lods@, c),
        forall|l: int|
            0 <= l < plan.lods@.len() ==> level_is_in_place(
                table.entries@,
                plan.lods@,
                #[trigger] plan.lods@[l],
                l,
            ),
        are_paged(
            Layout { chunks: plan.chunks@, lods: plan.lods@, pages: plan.pages@ },
            if page_splats == 0 {
                1
            } else {
                page_splats as int
            },
        ),
        plan.point_count * width_of(table.stride) == payload_len,
        plan.stride == width_of(table.stride),
{
    let whole = table_layout(table.entries@, page_splats);
    let limit = page_limit(page_splats);
    lemma_layout_grows(table.entries@, table.entries@.len(), table.entries@.len(), limit);
    lemma_layout_levels(table.entries@, table.entries@.len(), limit);
    lemma_layout_paged(table.entries@, table.entries@.len(), limit);
    let found = Layout { chunks: plan.chunks@, lods: plan.lods@, pages: plan.pages@ };
    assert forall|p: int| 0 <= p < found.pages.len() implies page_is_in_place(
        found,
        limit,
        #[trigger] found.pages[p],
        p,
    ) by {
        assert(page_is_in_place(whole, limit, whole.pages[p], p));
    }
    assert forall|l: int| 0 <= l < found.lods.len() implies ({
        let lod = #[trigger] found.lods[l];
        &&& lod.first_page + lod.page_count <= found.pages.len()
        &&& lod.count <= lod.page_count * limit < lod.count + limit
        &&& lod.first_page == (if l == 0 {
            0
        } else {
            found.lods[l - 1].first_page + found.lods[l - 1].page_count
        })
    }) by {
        assert(whole.lods[l] == found.lods[l]);
    }
    lemma_fundamental_div_mod(payload_len as int, width_of(table.stride));
    assert(plan.point_count * width_of(table.stride) == width_of(table.stride) * plan.point_count)
        by (nonlinear_arith);
}

proof fn lemma_chunk_pages(entries: Seq<ChunkEntry>, n: nat, page_splats: int, p: int)
    requires
        n <= entries.len() <= u32::MAX,
        page_splats >= 1,
        layout(entries, n, page_splats).pages.len() <= u32::MAX,
        layout(entries, n, page_splats).lods.len() <= u32::MAX,
    ensures
        ({
            let whole = layout(entries, n, page_splats);
            &&& whole.chunks.len() == n
            &&& n > 0 ==> whole.chunks[n - 1].first_page + whole.chunks[n - 1].page_count
                == whole.pages.len()
            &&& n == 0 ==> whole.pages.len() == 0
            &&& forall|c: int|
                0 <= c < n ==> (#[trigger] whole.chunks[c]).first_page == (if c == 0 {
                    0
                } else {
                    whole.chunks[c - 1].first_page + whole.chunks[c - 1].page_count
                })
            &&& 0 <= p < whole.pages.len() ==> whole.pages[p].chunk_index < n && ({
                let chunk = whole.chunks[whole.pages[p].chunk_index as int];
                chunk.first_page <= p < chunk.first_page + chunk.page_count
            })
        }),
    decreases n,
{
    if n > 0 {
        lemma_layout_grows(entries, (n - 1) as nat, n, page_splats);
        lemma_chunk_pages(entries, (n - 1) as nat, page_splats, p);
        let prev = layout(entries, (n - 1) as nat, page_splats);
        let whole = layout(entries, n, page_splats);
        let counts = entry_lods(entries[n - 1]);
        lemma_added_pages(prev, n - 1, counts, counts.len(), page_splats, p);
        assert forall|c: int| 0 <= c < n implies (#[trigger] whole.chunks[c]).first_page == (if c
            == 0 {
            0
        } else {
            whole.chunks[c - 1].first_page + whole.chunks[c - 1].page_count
        }) by {
            if c < n - 1 {
                assert(whole.chunks[c] == prev.chunks[c]);
                if c > 0 {
                    assert(whole.chunks[c - 1] == prev.chunks[c - 1]);
                }
            } else if c > 0 {
                assert(whole.chunks[c - 1] == prev.chunks[c - 1]);
            }
        }
    }
}

proof fn lemma_added_pages(
    base: Layout,
    chunk: int,
    counts: Seq<u32>,
    m: nat,
    page_splats: int,
    p: int,
)
    requires
        0 <= chunk <= u32::MAX,
    ensures
        ({
            let next = with_lods(base, chunk, counts, m, page_splats);
            &&& next.pages.len() >= base.pages.len()
            &&& next.chunks == base.chunks
            &&& 0 <= p < base.pages.len() ==> next.pages[p] == base.pages[p]
            &&& base.pages.len() <= p < next.pages.len() ==> next.pages[p].chunk_index == chunk
        }),
    decreases m,
{
    if m > 0 {
        lemma_added_pages(base, chunk, counts, (m - 1) as nat, page_splats, p);
    }
}

/// The pages of a chunk are those that the chunk names, and no others.
pub proof fn chunks_name_their_pages(
    plan: PackPlan,
    payload_len: usize,
    table: ChunkTable,
    degree: i32,
    page_splats: u32,
    p: int,
)
    requires
        is_plan(plan, payload_len, table.entries@, table.stride, degree, page_splats),
        makes_pack(payload_len, table, degree, page_splats),
        0 <= p < plan.pages@.len(),
    ensures
        plan.pages@[p].chunk_index < plan.chunks@.len(),
        ({
            let chunk = plan.chunks@[plan.pages@[p].chunk_index as int];
            chunk.first_page <= p < chunk.first_page + chunk.page_count
        }),
        forall|c: int|
            0 < c < plan.chunks@.len() ==> (#[trigger] plan.chunks@[c]).first_page
                == plan.chunks@[c - 1].first_page + plan.chunks@[c - 1].page_count,
{
    lemma_layout_grows(
        table.entries@,
        table.entries@.len(),
        table.entries@.len(),
        page_limit(page_splats),
    );
    lemma_chunk_pages(table.entries@, table.entries@.len(), page_limit(page_splats), p);
}

/// The tables and the records of a pack follow each other without a gap, and the bytes of each page
/// follow those of the page before it.
pub proof fn pages_follow_each_other(
    plan: PackPlan,
    payload_len: usize,
    table: ChunkTable,
    degree: i32,
    page_splats: u32,
    p: int,
)
    requires
        is_plan(plan, payload_len, table.entries@, table.stride, degree, page_splats),
        makes_pack(payload_len, table, degree, page_splats),
        0 <= p < plan.pages@.len(),
    ensures
        plan.node_lod_table_offset == 160 + 64 * plan.chunks@.len(),
        plan.page_table_offset == plan.node_lod_table_offset + 32 * plan.lods@.len(),
        plan.payload_offset == plan.page_table_offset + 32 * plan.pages@.len(),
        plan.pages@[p].byte_len == plan.pages@[p].count * plan.record_bytes,
        p == 0 ==> plan.pages@[p].byte_offset == plan.payload_offset,
        p > 0 ==> plan.pages@[p].byte_offset == plan.pages@[p - 1].byte_offset + plan.pages@[p
            - 1].byte_len,
        plan.record_bytes == record_size(plan.sh_degree_available as int),
{
    let whole = table_layout(table.entries@, page_splats);
    let size = stored_record_size(degree, table.stride);
    let limit = page_limit(page_splats);
    lemma_layout_grows(table.entries@, table.entries@.len(), table.entries@.len(), limit);
    layout_is_nested(table.entries@, table.entries@.len(), limit);
    degrees_count_their_coefficients(stored_degree(degree, table.stride), 0);
    degrees_count_their_coefficients(
        stored_degree(degree, table.stride),
        width_of(table.stride),
    );
    assert(size <= 4 * width_of(table.stride));
    crate::gsplat_pack::layout::lemma_page_bytes_fit(
        table.entries@,
        page_splats,
        table.stride,
        whole,
        p,
        size,
    );
    lemma_offset(whole, payload_start(whole), size, p);
    if p > 0 {
        crate::gsplat_pack::layout::lemma_page_bytes_fit(
            table.entries@,
            page_splats,
            table.stride,
            whole,
            p - 1,
            size,
        );
        lemma_offset(whole, payload_start(whole), size, p - 1);
        let before = records_before(whole.pages, (p - 1) as nat);
        assert(size * (before + whole.pages[p - 1].count) == size * before + whole.pages[p - 1].count
            * size) by (nonlinear_arith);
    } else {
        assert(size * records_before(whole.pages, 0) == 0) by (nonlinear_arith)
            requires
                records_before(whole.pages, 0) == 0,
        ;
    }
}

proof fn lemma_offset(whole: Layout, base: int, size: int, p: int)
    requires
        0 <= p < whole.pages.len(),
        0 <= base,
        size >= 0,
        base + size * records_before(whole.pages, whole.pages.len()) <= u64::MAX,
    ensures
        0 <= base + size * records_before(whole.pages, p as nat) <= u64::MAX,
{
    crate::gsplat_pack::layout::lemma_records_grow(whole.pages, p as nat, whole.pages.len());
    let (a, b) = (
        records_before(whole.pages, p as nat),
        records_before(whole.pages, whole.pages.len()),
    );
    assert(0 <= size * a <= size * b) by (nonlinear_arith)
        requires
            0 <= a <= b,
            size >= 0,
    ;
}

/// A level that keeps fewer splats than its chunk has takes one of every cell before it takes a
/// second of any, and of equal claims the earlier splat.
pub proof fn levels_take_one_of_every_cell_first(
    count: int,
    target: int,
    cells: Seq<[i32; 3]>,
    i: int,
    j: int,
)
    requires
        0 <= target < count == cells.len(),
        0 <= i < count,
        0 <= j < count,
    ensures
        ({
            let kept = lod_sample(count, target, cells);
            let alone = |k: int| forall|h: int| 0 <= h < k ==> #[trigger] cells[h] != cells[k];
            &&& alone(i) && !alone(j) && kept.contains(j) ==> kept.contains(i)
            &&& alone(i) == alone(j) && i < j && kept.contains(j) ==> kept.contains(i)
        }),
{
    let kept = lod_sample(count, target, cells);
    let n = count as nat;
    let firsts = cell_firsts(cells, n);
    let others = cell_others(cells, n);
    let all = firsts + others;
    lemma_listed(cells, n, i);
    lemma_listed(cells, n, j);
    lemma_firsts_and_others(cells, n);
    if kept.contains(j) {
        let q = choose|q: int| 0 <= q < kept.len() && kept[q] == j;
        assert(all[q] == j);
        if first_of_cell(cells, i) {
            let p = choose|p: int| 0 <= p < firsts.len() && firsts[p] == i;
            assert(all[p] == i);
            if !first_of_cell(cells, j) {
                assert(q >= firsts.len());
                assert(kept[p] == i);
            } else if i < j {
                assert(q < firsts.len());
                assert(p < q);
                assert(kept[p] == i);
            }
        } else if !first_of_cell(cells, j) && i < j {
            let p = choose|p: int| 0 <= p < others.len() && others[p] == i;
            assert(all[firsts.len() + p] == i);
            assert(q >= firsts.len());
            assert(others[q - firsts.len()] == j);
            assert(p < q - firsts.len());
            assert(kept[firsts.len() + p] == i);
        }
    }
}

proof fn lemma_listed(cells: Seq<[i32; 3]>, n: nat, i: int)
    requires
        0 <= i < n,
    ensures
        first_of_cell(cells, i) ==> cell_firsts(cells, n).contains(i),
        !first_of_cell(cells, i) ==> cell_others(cells, n).contains(i),
    decreases n,
{
    if i == n - 1 {
        if first_of_cell(cells, i) {
            let list = cell_firsts(cells, n);
            assert(list[list.len() - 1] == i);
        } else {
            let list = cell_others(cells, n);
            assert(list[list.len() - 1] == i);
        }
    } else {
        lemma_listed(cells, (n - 1) as nat, i);
        if first_of_cell(cells, i) {
            let list = cell_firsts(cells, (n - 1) as nat);
            let p = choose|p: int| 0 <= p < list.len() && list[p] == i;
            assert(cell_firsts(cells, n)[p] == i);
        } else {
            let list = cell_others(cells, (n - 1) as nat);
            let p = choose|p: int| 0 <= p < list.len() && list[p] == i;
            assert(cell_others(cells, n)[p] == i);
        }
    }
}

/// A level that keeps every splat keeps them in their order.
pub proof fn full_levels_keep_every_splat(count: int, target: int, cells: Seq<[i32; 3]>, i: int)
    requires
        0 <= i < count <= target,
    ensures
        lod_sample(count, target, cells).len() == count,
        lod_sample(count, target, cells)[i] == i,
{
}

/// The ranges of a pack enclose what they are named after: each coordinate and each scale of every
/// splat, and every coefficient; where a range is replaced it is the unit one, or for coefficients
/// the one around zero.
pub proof fn ranges_enclose_the_splats(
    payload: Seq<F32>,
    stride: usize,
    degree: i32,
    narrow: NarrowRanges,
    i: int,
    k: int,
)
    requires
        0 <= i < payload.len() as int / width_of(stride),
        0 <= k < 3,
    ensures
        ({
            let width = width_of(stride);
            let ranges = payload_ranges(payload, stride, degree, narrow);
            let position = payload[i * width + k];
            let scale = payload[i * width + 7 + k];
            &&& !narrow.position[k] && position.finite() && ranges.position_max[k].bits
                != 0x3f80_0000 ==> ranges.position_min[k].at_most(position) && position.at_most(
                ranges.position_max[k],
            )
            &&& narrow.position[k] ==> ranges.position_min[k].bits == 0 && ranges.position_max[k].bits
                == 0x3f80_0000
            &&& narrow.scale[k] ==> ranges.scale_min[k].bits == 0 && ranges.scale_max[k].bits
                == 0x3f80_0000
            &&& !narrow.scale[k] && scale.finite() && ranges.scale_max[k].bits != 0x3f80_0000
                ==> ranges.scale_min[k].at_most(scale) && scale.at_most(ranges.scale_max[k])
            &&& narrow.sh || stored_degree(degree, stride) == 0 ==> ranges.sh_min.bits
                == 0xbf80_0000 && ranges.sh_max.bits == 0x3f80_0000
            &&& !narrow.position[k] && all_finite(payload, width, k) ==> is_extent(
                payload,
                width,
                k,
                ranges.position_min[k],
                ranges.position_max[k],
            )
            &&& !narrow.scale[k] && all_finite(payload, width, 7 + k) ==> is_extent(
                payload,
                width,
                7 + k,
                ranges.scale_min[k],
                ranges.scale_max[k],
            )
        }),
{
    let width = width_of(stride);
    let n = payload.len() as int / width;
    assert(payload.len() / width as nat == n);
    lemma_extent(payload, width, k, n);
    lemma_extent(payload, width, 7 + k, n);
    assert(k == 0 || k == 1 || k == 2);
    columns_are_enclosed(payload, width, k, 0, n);
    columns_are_enclosed(payload, width, 7 + k, 0, n);
    assert(payload[i * width + (7 + k)] == payload[i * width + 7 + k]);
}

/// Whether a field is finite in every splat.
pub open spec fn all_finite(payload: Seq<F32>, width: int, field: int) -> bool {
    forall|i: int|
        0 <= i < payload.len() as int / width ==> (#[trigger] payload[i * width + field]).finite()
}

/// Whether two numbers are the lowest and the highest of a field over all splats.
pub open spec fn is_extent(
    payload: Seq<F32>,
    width: int,
    field: int,
    low: F32,
    high: F32,
) -> bool {
    &&& forall|i: int|
        0 <= i < payload.len() as int / width ==> low.at_most(#[trigger] payload[i * width + field])
            && payload[i * width + field].at_most(high)
    &&& exists|i: int|
        0 <= i < payload.len() as int / width && #[trigger] payload[i * width + field] == low
    &&& exists|i: int|
        0 <= i < payload.len() as int / width && #[trigger] payload[i * width + field] == high
}

proof fn lemma_extent(payload: Seq<F32>, width: int, field: int, n: int)
    requires
        n == payload.len() as int / width,
        n > 0,
    ensures
        all_finite(payload, width, field) ==> is_extent(
            payload,
            width,
            field,
            lowest(column(payload, width, field, 0, n)),
            highest(column(payload, width, field, 0, n)),
        ) && lowest(column(payload, width, field, 0, n)).finite(),
{
    columns_are_enclosed(payload, width, field, 0, n);
    if all_finite(payload, width, field) {
        assert(payload[0 * width + field].finite());
        let low = choose|p: int|
            0 <= p < n && #[trigger] payload[p * width + field] == lowest(
                column(payload, width, field, 0, n),
            );
        assert(payload[low * width + field].finite());
    }
}

proof fn lemma_coefficient_among(
    values: Seq<F32>,
    stride: int,
    count: int,
    n: nat,
    i: int,
    k: int,
)
    requires
        count >= 0,
    ensures
        coefficients(values, stride, count, n).len() == n * count,
        0 <= i < n && 0 <= k < count ==> is_among(
            values[i * stride + 18 + k],
            coefficients(values, stride, count, n),
        ),
    decreases n,
{
    let all = coefficients(values, stride, count, n);
    if n > 0 {
        let m = (n - 1) as nat;
        lemma_coefficient_among(values, stride, count, m, i, k);
        let prev = coefficients(values, stride, count, m);
        assert(n * count == m * count + count) by (nonlinear_arith)
            requires
                n == m + 1,
        ;
        if i == m && 0 <= k < count {
            assert(all[prev.len() + k] == values[i * stride + 18 + k]);
        } else if 0 <= i < m && 0 <= k < count {
            let q = choose|q: int|
                0 <= q < prev.len() && #[trigger] prev[q] == values[i * stride + 18 + k];
            assert(all[q] == values[i * stride + 18 + k]);
        }
    } else {
        assert(n * count == 0) by (nonlinear_arith)
            requires
                n == 0,
        ;
    }
}

/// Every coefficient lies within the range of the coefficients, unless that was replaced.
pub proof fn coefficient_range_encloses_them(
    payload: Seq<F32>,
    stride: usize,
    degree: i32,
    narrow: NarrowRanges,
    i: int,
    k: int,
)
    requires
        0 <= i < payload.len() as int / width_of(stride),
        0 <= k < coefficients_up_to(stored_degree(degree, stride)),
        !narrow.sh,
        payload[i * width_of(stride) + 18 + k].finite(),
    ensures
        ({
            let ranges = payload_ranges(payload, stride, degree, narrow);
            let value = payload[i * width_of(stride) + 18 + k];
            ||| ranges.sh_min.at_most(value) && value.at_most(ranges.sh_max)
            ||| ranges.sh_min.bits == 0xbf80_0000 && ranges.sh_max.bits == 0x3f80_0000 && !lowest(
                coefficients(
                    payload,
                    width_of(stride),
                    coefficients_up_to(stored_degree(degree, stride)),
                    (payload.len() as int / width_of(stride)) as nat,
                ),
            ).finite()
        }),
{
    let width = width_of(stride);
    let n = payload.len() as int / width;
    let count = sh_count(stored_degree(degree, stride));
    degrees_count_their_coefficients(stored_degree(degree, stride), 0);
    let all = coefficients(payload, width, count, n as nat);
    lemma_coefficient_among(payload, width, count, n as nat, i, k);
    extremes_enclose_and_are_attained(all);
    assert(payload.len() / width as nat == n);
    let q = choose|q: int| 0 <= q < all.len() && #[trigger] all[q] == payload[i * width + 18 + k];
    assert(lowest(all).at_most(all[q]));
}

/// The header of a pack spells its name and its version, and holds each field where readers look
/// for it.
pub proof fn header_fields_have_their_places(h: PackHeader)
    ensures
        ({
            let bytes = header_bytes(h);
            &&& bytes.len() == 160
            &&& bytes.subrange(0, 8) == seq![71u8, 83u8, 80u8, 65u8, 67u8, 75u8, 49u8, 0u8]
            &&& word_at(bytes, 8) == 3
            &&& word_at(bytes, 12) == h.point_count
            &&& word_at(bytes, 16) == h.stride
            &&& word_at(bytes, 20) == h.sh_degree_available
            &&& word_at(bytes, 24) == h.chunk_size.bits
            &&& word_at(bytes, 28) == h.grid_origin[0].bits
            &&& word_at(bytes, 32) == h.grid_origin[1].bits
            &&& word_at(bytes, 36) == h.grid_origin[2].bits
            &&& word_at(bytes, 40) == h.chunk_count
            &&& word_at(bytes, 44) == h.page_count
            &&& word_at(bytes, 48) + 0x1_0000_0000 * word_at(bytes, 52) == h.chunk_table_offset
            &&& word_at(bytes, 56) + 0x1_0000_0000 * word_at(bytes, 60) == h.page_table_offset
            &&& word_at(bytes, 64) + 0x1_0000_0000 * word_at(bytes, 68) == h.payload_offset
            &&& word_at(bytes, 72) + 0x1_0000_0000 * word_at(bytes, 76) == h.node_lod_table_offset
            &&& word_at(bytes, 80) == h.node_lod_count
            &&& word_at(bytes, 84) == h.lod_levels
            &&& word_at(bytes, 96) == 1
            &&& word_at(bytes, 100) == h.record_bytes
            &&& word_at(bytes, 104) == h.ranges.position_min[0].bits
            &&& word_at(bytes, 108) == h.ranges.position_min[1].bits
            &&& word_at(bytes, 112) == h.ranges.position_min[2].bits
            &&& word_at(bytes, 116) == h.ranges.position_max[0].bits
            &&& word_at(bytes, 120) == h.ranges.position_max[1].bits
            &&& word_at(bytes, 124) == h.ranges.position_max[2].bits
            &&& word_at(bytes, 128) == h.ranges.scale_min[0].bits
            &&& word_at(bytes, 132) == h.ranges.scale_min[1].bits
            &&& word_at(bytes, 136) == h.ranges.scale_min[2].bits
            &&& word_at(bytes, 140) == h.ranges.scale_max[0].bits
            &&& word_at(bytes, 144) == h.ranges.scale_max[1].bits
            &&& word_at(bytes, 148) == h.ranges.scale_max[2].bits
            &&& word_at(bytes, 152) == h.ranges.sh_min.bits
            &&& word_at(bytes, 156) == h.ranges.sh_max.bits
        }),
{
    reveal(header_words);
    let words = header_words(h);
    let bytes = header_bytes(h);
    assert(bytes.subrange(0, 8) =~= seq![71u8, 83u8, 80u8, 65u8, 67u8, 75u8, 49u8, 0u8]);
    assert(bytes.subrange(8, (8 + 4 * words.len()) as int) =~= words_bytes(words));
    lemma_all_words(bytes, words);
    lemma_words_picked(bytes, words);
    crate::bytes::lemma_long_round_trip(h.chunk_table_offset);
    crate::bytes::lemma_long_round_trip(h.page_table_offset);
    crate::bytes::lemma_long_round_trip(h.payload_offset);
    crate::bytes::lemma_long_round_trip(h.node_lod_table_offset);
}

proof fn lemma_all_words(bytes: Seq<u8>, words: Seq<u32>)
    requires
        bytes.len() >= 8 + 4 * words.len(),
        bytes.subrange(8, (8 + 4 * words.len()) as int) == words_bytes(words),
    ensures
        forall|i: int| 0 <= i < words.len() ==> #[trigger] words[i] == word_at(bytes, 8 + 4 * i),
{
    assert forall|i: int| 0 <= i < words.len() implies #[trigger] words[i] == word_at(
        bytes,
        8 + 4 * i,
    ) by {
        crate::bytes::lemma_word_at_embedded(bytes, 8, words, i);
    }
}

proof fn lemma_words_picked(bytes: Seq<u8>, words: Seq<u32>)
    requires
        words.len() == 38,
        forall|i: int| 0 <= i < words.len() ==> #[trigger] words[i] == word_at(bytes, 8 + 4 * i),
    ensures
        words[0] == word_at(bytes, 8),
        words[1] == word_at(bytes, 12),
        words[2] == word_at(bytes, 16),
        words[3] == word_at(bytes, 20),
        words[4] == word_at(bytes, 24),
        words[5] == word_at(bytes, 28),
        words[6] == word_at(bytes, 32),
        words[7] == word_at(bytes, 36),
        words[8] == word_at(bytes, 40),
        words[9] == word_at(bytes, 44),
        words[10] == word_at(bytes, 48),
        words[11] == word_at(bytes, 52),
        words[12] == word_at(bytes, 56),
        words[13] == word_at(bytes, 60),
        words[14] == word_at(bytes, 64),
        words[15] == word_at(bytes, 68),
        words[16] == word_at(bytes, 72),
        words[17] == word_at(bytes, 76),
        words[18] == word_at(bytes, 80),
        words[19] == word_at(bytes, 84),
        words[22] == word_at(bytes, 96),
        words[23] == word_at(bytes, 100),
        words[24] == word_at(bytes, 104),
        words[25] == word_at(bytes, 108),
        words[26] == word_at(bytes, 112),
        words[27] == word_at(bytes, 116),
        words[28] == word_at(bytes, 120),
        words[29] == word_at(bytes, 124),
        words[30] == word_at(bytes, 128),
        words[31] == word_at(bytes, 132),
        words[32] == word_at(bytes, 136),
        words[33] == word_at(bytes, 140),
        words[34] == word_at(bytes, 144),
        words[35] == word_at(bytes, 148),
        words[36] == word_at(bytes, 152),
        words[37] == word_at(bytes, 156),
{
}

/// A file is a pack where it is long enough, spells the name of a pack, and has the version and the
/// encoding that there are; what is refused is refused for the first of these that fails.
pub proof fn only_packs_are_read(bytes: Seq<u8>)
    ensures
        bytes.len() < 160 <==> parsed_header(bytes) == Err::<PackHeader, PackError>(
            PackError::HeaderTruncated,
        ),
        bytes.len() >= 160 && bytes.subrange(0, 8) != seq![
            71u8,
            83u8,
            80u8,
            65u8,
            67u8,
            75u8,
            49u8,
            0u8,
        ] <==> parsed_header(bytes) == Err::<PackHeader, PackError>(PackError::InvalidMagic),
        parsed_header(bytes) is Ok <==> bytes.len() >= 160 && bytes.subrange(0, 8) == seq![
            71u8,
            83u8,
            80u8,
            65u8,
            67u8,
            75u8,
            49u8,
            0u8,
        ] && word_at(bytes, 8) == 3 && word_at(bytes, 96) == 1,
        parsed_header(bytes) matches Err(PackError::UnsupportedVersion(version)) ==> version
            == word_at(bytes, 8) && version != 3,
        parsed_header(bytes) matches Err(PackError::UnsupportedEncoding(encoding)) ==> encoding
            == word_at(bytes, 96) && encoding != 1 && word_at(bytes, 8) == 3,
        parsed_header(bytes) matches Err(error) ==> error == PackError::HeaderTruncated || error
            == PackError::InvalidMagic || error is UnsupportedVersion || error
            is UnsupportedEncoding,
{
    assert(magic() =~= seq![71u8, 83u8, 80u8, 65u8, 67u8, 75u8, 49u8, 0u8]);
}

/// The records of the tables hold each field where readers look for it.
pub proof fn table_fields_have_their_places(c: PackChunk, l: PackNodeLod, p: PackPage)
    ensures
        chunk_words(c).len() == 16,
        chunk_words(c)[0] as i32 == c.entry.grid[0],
        chunk_words(c)[1] as i32 == c.entry.grid[1],
        chunk_words(c)[2] as i32 == c.entry.grid[2],
        forall|k: int|
            #![trigger c.entry.aabb_min[k]]
            0 <= k < 3 ==> chunk_words(c)[3 + k] == c.entry.aabb_min[k].bits,
        forall|k: int|
            #![trigger c.entry.aabb_max[k]]
            0 <= k < 3 ==> chunk_words(c)[6 + k] == c.entry.aabb_max[k].bits,
        chunk_words(c)[9] == c.entry.offset,
        chunk_words(c)[10] == c.entry.count,
        chunk_words(c)[11] == c.first_page,
        chunk_words(c)[12] == c.page_count,
        lod_words(l).len() == 8,
        lod_words(l)[0] == l.chunk_index,
        lod_words(l)[1] == l.lod_level,
        lod_words(l)[2] == l.count,
        lod_words(l)[3] == l.first_page,
        lod_words(l)[4] == l.page_count,
        page_words(p).len() == 8,
        page_words(p)[0] == p.chunk_index,
        page_words(p)[1] == p.start_in_lod,
        page_words(p)[2] == p.count,
        page_words(p)[3] == p.lod_index,
        page_words(p)[4] + 0x1_0000_0000 * page_words(p)[5] == p.byte_offset,
        page_words(p)[6] == p.byte_len,
{
    crate::bytes::lemma_int_round_trip(c.entry.grid[0]);
    crate::bytes::lemma_int_round_trip(c.entry.grid[1]);
    crate::bytes::lemma_int_round_trip(c.entry.grid[2]);
    crate::bytes::lemma_long_round_trip(p.byte_offset);
    assert forall|k: int|
        #![trigger c.entry.aabb_min[k]]
        0 <= k < 3 implies chunk_words(c)[3 + k] == c.entry.aabb_min[k].bits by {
        assert(k == 0 || k == 1 || k == 2);
    }
    assert forall|k: int|
        #![trigger c.entry.aabb_max[k]]
        0 <= k < 3 implies chunk_words(c)[6 + k] == c.entry.aabb_max[k].bits by {
        assert(k == 0 || k == 1 || k == 2);
    }
}

/// The header of a pack says of it what was planned, and what the splats are spread over.
pub proof fn header_describes_the_pack(
    plan: PackPlan,
    payload_len: usize,
    table: ChunkTable,
    degree: i32,
    page_splats: u32,
    contents: PackContents,
)
    requires
        is_plan(plan, payload_len, table.entries@, table.stride, degree, page_splats),
        makes_pack(payload_len, table, degree, page_splats),
    ensures
        ({
            let h = plan_header(plan, table, contents.ranges);
            &&& h.point_count == payload_len as int / width_of(table.stride)
            &&& h.stride == width_of(table.stride)
            &&& h.sh_degree_available == stored_degree(degree, table.stride)
            &&& h.record_bytes == record_size(stored_degree(degree, table.stride))
            &&& h.chunk_size == table.chunk_size
            &&& h.grid_origin == table.grid_origin
            &&& h.ranges == contents.ranges
            &&& h.chunk_count == table.entries@.len()
            &&& h.node_lod_count == plan.lods@.len()
            &&& h.page_count == plan.pages@.len()
            &&& h.lod_levels == 4
            &&& h.chunk_table_offset == 160
            &&& h.node_lod_table_offset == 160 + 64 * h.chunk_count
            &&& h.page_table_offset == h.node_lod_table_offset + 32 * h.node_lod_count
            &&& h.payload_offset == h.page_table_offset + 32 * h.page_count
        }),
{
    lemma_layout_grows(
        table.entries@,
        table.entries@.len(),
        table.entries@.len(),
        page_limit(page_splats),
    );
    lemma_stored_degree(degree, table.stride);
    degrees_count_their_coefficients(stored_degree(degree, table.stride), 0);
}

/// The bounds of a chunk's centers enclose those of its splats that the payload holds, and no more
/// than they take up.
pub proof fn center_bounds_enclose_the_centers(
    values: Seq<F32>,
    stride: int,
    entry: ChunkEntry,
    p: int,
    k: int,
)
    requires
        stride >= 3,
        entry.offset <= p < entry.offset + entry.count,
        p * stride + 3 <= values.len(),
        0 <= k < 3,
        values[p * stride].finite(),
        values[p * stride + k].finite(),
    ensures
        ({
            let bounds = center_bounds(values, stride, entry);
            bounds == (entry.aabb_min, entry.aabb_max) || bounds.0[k].at_most(
                values[p * stride + k],
            ) && values[p * stride + k].at_most(bounds.1[k])
        }),
        p < entry.offset + present_splats(entry, stride, values.len() as int),
{
    let to = entry.offset + present_splats(entry, stride, values.len() as int);
    let len = values.len() as int;
    lemma_fundamental_div_mod(len - 3, stride);
    assert(p <= (len - 3) / stride) by (nonlinear_arith)
        requires
            p * stride <= len - 3,
            len - 3 == stride * ((len - 3) / stride) + (len - 3) % stride,
            (len - 3) % stride < stride,
            stride > 0,
    ;
    assert(p < to);
    columns_are_enclosed(values, stride, k, entry.offset as int, to);
    assert(k == 0 || k == 1 || k == 2);
}

/// As many levels are made as asked for, and one at least.
pub proof fn levels_are_made_as_asked_for(max_levels: u32)
    ensures
        max_levels >= 1 ==> level_limit(max_levels) == max_levels,
        max_levels == 0 ==> level_limit(max_levels) == 1,
{
}

/// The tables hold their records one after the other, and every word of each.
pub proof fn tables_hold_their_records(
    chunks: Seq<PackChunk>,
    lods: Seq<PackNodeLod>,
    pages: Seq<PackPage>,
    i: int,
    w: int,
)
    ensures
        chunk_table_words(chunks).len() == 16 * chunks.len(),
        lod_table_words(lods).len() == 8 * lods.len(),
        page_table_words(pages).len() == 8 * pages.len(),
        0 <= i < chunks.len() && 0 <= w < 16 ==> chunk_table_words(chunks)[16 * i + w]
            == chunk_words(chunks[i])[w],
        0 <= i < lods.len() && 0 <= w < 8 ==> lod_table_words(lods)[8 * i + w] == lod_words(
            lods[i],
        )[w],
        0 <= i < pages.len() && 0 <= w < 8 ==> page_table_words(pages)[8 * i + w] == page_words(
            pages[i],
        )[w],
{
    if 0 <= w < 16 {
        assert((16 * i + w) / 16 == i && (16 * i + w) % 16 == w);
    }
    if 0 <= w < 8 {
        assert((8 * i + w) / 8 == i && (8 * i + w) % 8 == w);
    }
}

/// A page is refused where its splats, as numbers of four bytes, take more bytes than 32 bits can
/// say; where no chunk has as many splats, no page is.
pub proof fn only_oversized_pages_are_refused(
    entries: Seq<ChunkEntry>,
    page_splats: u32,
    stride: usize,
    i: int,
)
    ensures
        0 <= i < entries.len() && entries[i].count <= page_splats && 4 * (entries[i].count
            * width_of(stride)) > 0xffff_ffff ==> page_overflows(entries, page_splats, stride),
        0 <= i < entries.len() && 1 <= page_splats <= entries[i].count && 4 * (page_splats
            * width_of(stride)) > 0xffff_ffff ==> page_overflows(entries, page_splats, stride),
        4 * (page_splats * width_of(stride)) <= 0xffff_ffff && page_splats >= 1 ==> !page_overflows(
            entries,
            page_splats,
            stride,
        ),
        (forall|j: int|
            0 <= j < entries.len() ==> 4 * ((#[trigger] entries[j]).count * width_of(stride))
                <= 0xffff_ffff) ==> !page_overflows(entries, page_splats, stride),
{
    let width = width_of(stride);
    let limit = page_limit(page_splats);
    if page_overflows(entries, page_splats, stride) {
        let j = choose|j: int|
            0 <= j < entries.len() && 4 * (least(limit, (#[trigger] entries[j]).count as int)
                * effective_stride(stride)) > u32::MAX;
        let few = least(limit, entries[j].count as int);
        assert(few * width <= limit * width && few * width <= entries[j].count * width)
            by (nonlinear_arith)
            requires
                few <= limit,
                few <= entries[j].count,
                width >= 0,
        ;
    }
    if 0 <= i < entries.len() {
        assert(4 * (least(limit, entries[i].count as int) * width) > 0xffff_ffff ==> page_overflows(
            entries,
            page_splats,
            stride,
        ));
    }
}

/// A chunk that has splats past the last one is noticed, and no other.
pub proof fn far_chunks_are_noticed(entries: Seq<ChunkEntry>, point_count: int, i: int)
    requires
        0 <= i < entries.len(),
    ensures
        entries[i].count > 0 && entries[i].offset + entries[i].count > point_count
            ==> crate::gsplat_pack::writer::reaches_past(entries, point_count),
        !crate::gsplat_pack::writer::reaches_past(entries, point_count) ==> entries[i].count == 0
            || entries[i].offset + entries[i].count <= point_count,
        (forall|j: int|
            0 <= j < entries.len() ==> (#[trigger] entries[j]).count == 0 || entries[j].offset
                + entries[j].count <= point_count) ==> !crate::gsplat_pack::writer::reaches_past(
            entries,
            point_count,
        ),
{
}

proof fn lemma_coefficient_place(values: Seq<F32>, stride: int, count: int, n: nat, q: int) -> (r: (
    int,
    int,
))
    requires
        count >= 0,
        0 <= q < coefficients(values, stride, count, n).len(),
    ensures
        0 <= r.0 < n,
        0 <= r.1 < count,
        coefficients(values, stride, count, n)[q] == values[r.0 * stride + 18 + r.1],
    decreases n,
{
    let m = (n - 1) as nat;
    let prev = coefficients(values, stride, count, m);
    if q < prev.len() {
        lemma_coefficient_place(values, stride, count, m, q)
    } else {
        (m as int, q - prev.len())
    }
}

/// Whether every coefficient of every splat is finite.
pub open spec fn coefficients_are_finite(payload: Seq<F32>, width: int, count: int) -> bool {
    forall|i: int, k: int|
        0 <= i < payload.len() as int / width && 0 <= k < count ==> (
        #[trigger] payload[i * width + 18 + k]).finite()
}

/// Where all coefficients are finite, the range of the coefficients goes from one of them to
/// another.
pub proof fn coefficient_range_is_attained(
    payload: Seq<F32>,
    stride: usize,
    degree: i32,
    narrow: NarrowRanges,
) -> (ends: (int, int, int, int))
    requires
        payload.len() as int / width_of(stride) > 0,
        stored_degree(degree, stride) > 0,
        !narrow.sh,
        coefficients_are_finite(
            payload,
            width_of(stride),
            coefficients_up_to(stored_degree(degree, stride)),
        ),
    ensures
        ({
            let width = width_of(stride);
            let count = coefficients_up_to(stored_degree(degree, stride));
            let ranges = payload_ranges(payload, stride, degree, narrow);
            &&& 0 <= ends.0 < payload.len() as int / width && 0 <= ends.1 < count
            &&& 0 <= ends.2 < payload.len() as int / width && 0 <= ends.3 < count
            &&& ranges.sh_min == payload[ends.0 * width + 18 + ends.1]
            &&& ranges.sh_max == payload[ends.2 * width + 18 + ends.3]
        }),
{
    let width = width_of(stride);
    let n = payload.len() as int / width;
    lemma_stored_degree(degree, stride);
    degrees_count_their_coefficients(stored_degree(degree, stride), 0);
    let count = coefficients_up_to(stored_degree(degree, stride));
    let all = coefficients(payload, width, count, n as nat);
    assert(payload.len() / width as nat == n);
    lemma_coefficient_among(payload, width, count, n as nat, 0, 0);
    extremes_enclose_and_are_attained(all);
    let first = choose|q: int| 0 <= q < all.len() && #[trigger] all[q] == payload[0 * width + 18 + 0];
    assert(payload[0 * width + 18 + 0].finite());
    assert(!all[first].nan());
    let low = choose|q: int| 0 <= q < all.len() && #[trigger] all[q] == lowest(all);
    let high = choose|q: int| 0 <= q < all.len() && #[trigger] all[q] == highest(all);
    let a = lemma_coefficient_place(payload, width, count, n as nat, low);
    let b = lemma_coefficient_place(payload, width, count, n as nat, high);
    assert(payload[a.0 * width + 18 + a.1].finite());
    (a.0, a.1, b.0, b.1)
}

} // verus!
