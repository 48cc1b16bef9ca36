//! The byte format of a pack: a header, three tables, and the records.

use crate::bytes::{
    high_word, int_at, lemma_int_round_trip, lemma_long_round_trip, lemma_word_at_embedded, long_at,
    low_word, word_at, words_bytes,
};
use crate::chunking::ChunkEntry;
use crate::floats::F32;
use crate::gsplat_pack::{
    PackChunk, PackError, PackHeader, PackNodeLod, PackPage, QuantizationRanges,
    ENCODING_PACKED_RGBA8, VERSION,
};
use vstd::prelude::*;

verus! {

/// The bytes that every pack starts with.
pub open spec fn magic() -> Seq<u8> {
    seq![0x47, 0x53, 0x50, 0x41, 0x43, 0x4b, 0x31, 0x00]
}

/// The words of the header, behind the magic bytes.
#[verifier::opaque]
pub open spec fn header_words(h: PackHeader) -> Seq<u32> {
    seq![
        VERSION,
        h.point_count,
        h.stride,
        h.sh_degree_available,
        h.chunk_size.bits,
        h.grid_origin[0].bits,
        h.grid_origin[1].bits,
        h.grid_origin[2].bits,
        h.chunk_count,
        h.page_count,
        low_word(h.chunk_table_offset),
        high_word(h.chunk_table_offset),
        low_word(h.page_table_offset),
        high_word(h.page_table_offset),
        low_word(h.payload_offset),
        high_word(h.payload_offset),
        low_word(h.node_lod_table_offset),
        high_word(h.node_lod_table_offset),
        h.node_lod_count,
        h.lod_levels,
        0,
        0,
        ENCODING_PACKED_RGBA8,
        h.record_bytes,
        h.ranges.position_min[0].bits,
        h.ranges.position_min[1].bits,
        h.ranges.position_min[2].bits,
        h.ranges.position_max[0].bits,
        h.ranges.position_max[1].bits,
        h.ranges.position_max[2].bits,
        h.ranges.scale_min[0].bits,
        h.ranges.scale_min[1].bits,
        h.ranges.scale_min[2].bits,
        h.ranges.scale_max[0].bits,
        h.ranges.scale_max[1].bits,
        h.ranges.scale_max[2].bits,
        h.ranges.sh_min.bits,
        h.ranges.sh_max.bits,
    ]
}

/// The words of a chunk record.
pub open spec fn chunk_words(c: PackChunk) -> Seq<u32> {
    seq![
        c.entry.grid[0] as u32,
        c.entry.grid[1] as u32,
        c.entry.grid[2] as u32,
        c.entry.aabb_min[0].bits,
        c.entry.aabb_min[1].bits,
        c.entry.aabb_min[2].bits,
        c.entry.aabb_max[0].bits,
        c.entry.aabb_max[1].bits,
        c.entry.aabb_max[2].bits,
        c.entry.offset,
        c.entry.count,
        c.first_page,
        c.page_count,
        0,
        0,
        0,
    ]
}

/// The words of a level-of-detail record.
pub open spec fn lod_words(l: PackNodeLod) -> Seq<u32> {
    seq![l.chunk_index, l.lod_level, l.count, l.first_page, l.page_count, 0, 0, 0]
}

/// The words of a page record.
pub open spec fn page_words(p: PackPage) -> Seq<u32> {
    seq![
        p.chunk_index,
        p.start_in_lod,
        p.count,
        p.lod_index,
        low_word(p.byte_offset),
        high_word(p.byte_offset),
        p.byte_len,
        0,
    ]
}

/// The words of the chunk table.
pub open spec fn chunk_table_words(chunks: Seq<PackChunk>) -> Seq<u32> {
    Seq::new(16 * chunks.len(), |i: int| chunk_words(chunks[i / 16])[i % 16])
}

/// The words of the level-of-detail table.
pub open spec fn lod_table_words(lods: Seq<PackNodeLod>) -> Seq<u32> {
    Seq::new(8 * lods.len(), |i: int| lod_words(lods[i / 8])[i % 8])
}

/// The words of the page table.
pub open spec fn page_table_words(pages: Seq<PackPage>) -> Seq<u32> {
    Seq::new(8 * pages.len(), |i: int| page_words(pages[i / 8])[i % 8])
}

/// The number whose bits are stored at `offset`.
pub open spec fn float_at(bytes: Seq<u8>, offset: int) -> F32 {
    F32 { bits: word_at(bytes, offset) }
}

/// The three numbers whose bits are stored from `offset` on.
pub open spec fn triple_at(bytes: Seq<u8>, offset: int) -> [F32; 3] {
    [float_at(bytes, offset), float_at(bytes, offset + 4), float_at(bytes, offset + 8)]
}

/// The fields of the header.
#[verifier::opaque]
pub open spec fn header_at(bytes: Seq<u8>) -> PackHeader {
    PackHeader {
        point_count: word_at(bytes, 12),
        stride: word_at(bytes, 16),
        record_bytes: word_at(bytes, 100),
        sh_degree_available: if int_at(bytes, 20) < 0 {
            0
        } else {
            word_at(bytes, 20)
        },
        chunk_size: float_at(bytes, 24),
        grid_origin: triple_at(bytes, 28),
        ranges: QuantizationRanges {
            position_min: triple_at(bytes, 104),
            position_max: triple_at(bytes, 116),
            scale_min: triple_at(bytes, 128),
            scale_max: triple_at(bytes, 140),
            sh_min: float_at(bytes, 152),
            sh_max: float_at(bytes, 156),
        },
        chunk_count: word_at(bytes, 40),
        node_lod_count: word_at(bytes, 80),
        lod_levels: word_at(bytes, 84),
        page_count: word_at(bytes, 44),
        chunk_table_offset: long_at(bytes, 48),
        node_lod_table_offset: long_at(bytes, 72),
        page_table_offset: long_at(bytes, 56),
        payload_offset: long_at(bytes, 64),
    }
}

/// What reading a header gives.
pub open spec fn parsed_header(bytes: Seq<u8>) -> Result<PackHeader, PackError> {
    if bytes.len() < 160 {
        Err(PackError::HeaderTruncated)
    } else if bytes.subrange(0, 8) != magic() {
        Err(PackError::InvalidMagic)
    } else if word_at(bytes, 8) != VERSION {
        Err(PackError::UnsupportedVersion(word_at(bytes, 8)))
    } else if word_at(bytes, 96) != ENCODING_PACKED_RGBA8 {
        Err(PackError::UnsupportedEncoding(word_at(bytes, 96)))
    } else {
        Ok(header_at(bytes))
    }
}

/// The chunk record stored at `offset`.
pub open spec fn chunk_at(bytes: Seq<u8>, offset: int) -> PackChunk {
    PackChunk {
        entry: ChunkEntry {
            grid: [
                int_at(bytes, offset),
                int_at(bytes, offset + 4),
                int_at(bytes, offset + 8),
            ],
            aabb_min: triple_at(bytes, offset + 12),
            aabb_max: triple_at(bytes, offset + 24),
            offset: word_at(bytes, offset + 36),
            count: word_at(bytes, offset + 40),
        },
        first_page: word_at(bytes, offset + 44),
        page_count: word_at(bytes, offset + 48),
    }
}

/// The level-of-detail record stored at `offset`.
pub open spec fn lod_at(bytes: Seq<u8>, offset: int) -> PackNodeLod {
    PackNodeLod {
        chunk_index: word_at(bytes, offset),
        lod_level: word_at(bytes, offset + 4),
        count: word_at(bytes, offset + 8),
        first_page: word_at(bytes, offset + 12),
        page_count: word_at(bytes, offset + 16),
    }
}

/// The page record stored at `offset`.
pub open spec fn page_at(bytes: Seq<u8>, offset: int) -> PackPage {
    PackPage {
        chunk_index: word_at(bytes, offset),
        start_in_lod: word_at(bytes, offset + 4),
        count: word_at(bytes, offset + 8),
        lod_index: word_at(bytes, offset + 12),
        byte_offset: long_at(bytes, offset + 16),
        byte_len: word_at(bytes, offset + 24),
    }
}

/// The bytes of a header.
pub open spec fn header_bytes(h: PackHeader) -> Seq<u8> {
    magic() + words_bytes(header_words(h))
}

/// A header takes 160 bytes.
pub proof fn lemma_header_len(h: PackHeader)
    ensures
        header_bytes(h).len() == 160,
{
    reveal(header_words);
}

/// A header is read back as it was written, whatever follows it.
pub proof fn header_round_trips(h: PackHeader, bytes: Seq<u8>)
    requires
        bytes.len() >= 160,
        bytes.subrange(0, 160) == header_bytes(h),
        h.sh_degree_available <= i32::MAX,
    ensures
        parsed_header(bytes) == Ok::<PackHeader, PackError>(h),
{
    reveal(header_words);
    reveal(header_at);
    let words = header_words(h);
    assert(bytes.subrange(0, 8) =~= bytes.subrange(0, 160).subrange(0, 8));
    assert(header_bytes(h).subrange(0, 8) =~= magic());
    assert(bytes.subrange(8, 160) =~= bytes.subrange(0, 160).subrange(8, 160));
    assert(header_bytes(h).subrange(8, 160) =~= words_bytes(words));
    assert forall|i: int| 0 <= i < 38 implies #[trigger] words[i] == word_at(
        bytes,
        8 + 4 * i,
    ) by {
        lemma_word_at_embedded(bytes, 8, words, i);
    }
    lemma_long_round_trip(h.chunk_table_offset);
    lemma_long_round_trip(h.page_table_offset);
    lemma_long_round_trip(h.payload_offset);
    lemma_long_round_trip(h.node_lod_table_offset);
    let back = header_at(bytes);
    assert(words[0] == VERSION && words[22] == ENCODING_PACKED_RGBA8);
    assert(words[1] == h.point_count && words[2] == h.stride && words[23] == h.record_bytes);
    assert(words[3] == h.sh_degree_available && words[4] == h.chunk_size.bits);
    assert(words[8] == h.chunk_count && words[9] == h.page_count);
    assert(words[18] == h.node_lod_count && words[19] == h.lod_levels);
    assert(words[5] == h.grid_origin[0].bits && words[6] == h.grid_origin[1].bits && words[7]
        == h.grid_origin[2].bits);
    assert(words[10] == low_word(h.chunk_table_offset));
    assert(words[11] == high_word(h.chunk_table_offset));
    assert(words[12] == low_word(h.page_table_offset));
    assert(words[13] == high_word(h.page_table_offset));
    assert(words[14] == low_word(h.payload_offset));
    assert(words[15] == high_word(h.payload_offset));
    assert(words[16] == low_word(h.node_lod_table_offset));
    assert(words[17] == high_word(h.node_lod_table_offset));
    assert(back.grid_origin =~= h.grid_origin);
    assert(words[24] == h.ranges.position_min[0].bits && words[25]
        == h.ranges.position_min[1].bits && words[26] == h.ranges.position_min[2].bits);
    assert(back.ranges.position_min =~= h.ranges.position_min);
    assert(words[27] == h.ranges.position_max[0].bits && words[28]
        == h.ranges.position_max[1].bits && words[29] == h.ranges.position_max[2].bits);
    assert(back.ranges.position_max =~= h.ranges.position_max);
    assert(words[30] == h.ranges.scale_min[0].bits && words[31] == h.ranges.scale_min[1].bits
        && words[32] == h.ranges.scale_min[2].bits);
    assert(back.ranges.scale_min =~= h.ranges.scale_min);
    assert(words[33] == h.ranges.scale_max[0].bits && words[34] == h.ranges.scale_max[1].bits
        && words[35] == h.ranges.scale_max[2].bits);
    assert(back.ranges.scale_max =~= h.ranges.scale_max);
    assert(words[36] == h.ranges.sh_min.bits && words[37] == h.ranges.sh_max.bits);
    assert(int_at(bytes, 20) == h.sh_degree_available as i32);
    assert(back.sh_degree_available == h.sh_degree_available);
}

/// A chunk record is read back as it was written.
pub proof fn chunk_round_trips(chunks: Seq<PackChunk>, bytes: Seq<u8>, base: int, i: int)
    requires
        0 <= base,
        base + 64 * chunks.len() <= bytes.len(),
        bytes.subrange(base, base + 64 * chunks.len()) == words_bytes(chunk_table_words(chunks)),
        0 <= i < chunks.len(),
    ensures
        chunk_at(bytes, base + 64 * i) == chunks[i],
{
    let table = chunk_table_words(chunks);
    let words = chunk_words(chunks[i]);
    assert forall|k: int| 0 <= k < 16 implies #[trigger] words[k] == word_at(
        bytes,
        base + 64 * i + 4 * k,
    ) by {
        lemma_word_at_embedded(bytes, base, table, 16 * i + k);
        assert((16 * i + k) / 16 == i && (16 * i + k) % 16 == k);
        assert(base + 4 * (16 * i + k) == base + 64 * i + 4 * k);
    }
    let entry = chunks[i].entry;
    let back = chunk_at(bytes, base + 64 * i);
    lemma_int_round_trip(entry.grid[0]);
    lemma_int_round_trip(entry.grid[1]);
    lemma_int_round_trip(entry.grid[2]);
    assert(words[0] == entry.grid[0] as u32 && words[1] == entry.grid[1] as u32 && words[2]
        == entry.grid[2] as u32);
    assert(back.entry.grid =~= entry.grid);
    assert(words[3] == entry.aabb_min[0].bits && words[4] == entry.aabb_min[1].bits && words[5]
        == entry.aabb_min[2].bits);
    assert(back.entry.aabb_min =~= entry.aabb_min);
    assert(words[6] == entry.aabb_max[0].bits && words[7] == entry.aabb_max[1].bits && words[8]
        == entry.aabb_max[2].bits);
    assert(back.entry.aabb_max =~= entry.aabb_max);
    assert(words[9] == entry.offset && words[10] == entry.count);
    assert(words[11] == chunks[i].first_page && words[12] == chunks[i].page_count);
}

/// A level-of-detail record is read back as it was written.
pub proof fn lod_round_trips(lods: Seq<PackNodeLod>, bytes: Seq<u8>, base: int, i: int)
    requires
        0 <= base,
        base + 32 * lods.len() <= bytes.len(),
        bytes.subrange(base, base + 32 * lods.len()) == words_bytes(lod_table_words(lods)),
        0 <= i < lods.len(),
    ensures
        lod_at(bytes, base + 32 * i) == lods[i],
{
    let table = lod_table_words(lods);
    let words = lod_words(lods[i]);
    assert forall|k: int| 0 <= k < 8 implies #[trigger] words[k] == word_at(
        bytes,
        base + 32 * i + 4 * k,
    ) by {
        lemma_word_at_embedded(bytes, base, table, 8 * i + k);
        assert((8 * i + k) / 8 == i && (8 * i + k) % 8 == k);
        assert(base + 4 * (8 * i + k) == base + 32 * i + 4 * k);
    }
    let l = lods[i];
    assert(words[0] == l.chunk_index && words[1] == l.lod_level && words[2] == l.count && words[3]
        == l.first_page && words[4] == l.page_count);
}

/// A page record is read back as it was written.
pub proof fn page_round_trips(pages: Seq<PackPage>, bytes: Seq<u8>, base: int, i: int)
    requires
        0 <= base,
        base + 32 * pages.len() <= bytes.len(),
        bytes.subrange(base, base + 32 * pages.len()) == words_bytes(page_table_words(pages)),
        0 <= i < pages.len(),
    ensures
        page_at(bytes, base + 32 * i) == pages[i],
{
    let table = page_table_words(pages);
    let words = page_words(pages[i]);
    assert forall|k: int| 0 <= k < 8 implies #[trigger] words[k] == word_at(
        bytes,
        base + 32 * i + 4 * k,
    ) by {
        lemma_word_at_embedded(bytes, base, table, 8 * i + k);
        assert((8 * i + k) / 8 == i && (8 * i + k) % 8 == k);
        assert(base + 4 * (8 * i + k) == base + 32 * i + 4 * k);
    }
    let p = pages[i];
    lemma_long_round_trip(p.byte_offset);
    assert(words[0] == p.chunk_index && words[1] == p.start_in_lod && words[2] == p.count
        && words[3] == p.lod_index && words[6] == p.byte_len);
    assert(words[4] == low_word(p.byte_offset) && words[5] == high_word(p.byte_offset));
}

} // verus!
