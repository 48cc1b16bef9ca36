//! Reading a pack back from its bytes.

use crate::bytes::{int_at, long_at, read_word, word_at};
use crate::chunking::ChunkEntry;
use crate::floats::F32;
use crate::gsplat_pack::format::{
    chunk_at, float_at, header_at, lod_at, magic, page_at, parsed_header, triple_at,
};
use crate::gsplat_pack::{
    GsplatPackIndex, PackChunk, PackError, PackHeader, PackIndexView, PackNodeLod, PackPage,
    QuantizationRanges, ENCODING_PACKED_RGBA8, VERSION,
};
use vstd::prelude::*;
use vstd::slice::slice_subrange;

verus! {

/// The `N` bytes at `offset`.
pub fn read_array<const N: usize>(bytes: &[u8], offset: usize) -> (result: Result<&[u8], PackError>)
    requires
        offset + N <= usize::MAX,
    ensures
        match result {
            Ok(part) => offset + N <= bytes@.len() && part@ == bytes@.subrange(
                offset as int,
                offset + N,
            ),
            Err(error) => offset + N > bytes@.len() && error == PackError::RecordTruncated,
        },
{
    let end: usize = offset + N;
    if end > bytes.len() {
        return Err(PackError::RecordTruncated);
    }
    Ok(slice_subrange(bytes, offset, end))
}

/// The unsigned 32-bit integer at `offset`.
pub fn read_u32_at(bytes: &[u8], offset: usize) -> (result: Result<u32, PackError>)
    requires
        offset + 4 <= usize::MAX,
    ensures
        result == (if offset + 4 <= bytes@.len() {
            Ok(word_at(bytes@, offset as int))
        } else {
            Err(PackError::RecordTruncated)
        }),
{
    match read_array::<4>(bytes, offset) {
        Ok(part) => Ok(read_word(part, 0)),
        Err(error) => Err(error),
    }
}

/// The signed 32-bit integer at `offset`.
pub fn read_i32_at(bytes: &[u8], offset: usize) -> (result: Result<i32, PackError>)
    requires
        offset + 4 <= usize::MAX,
    ensures
        result == (if offset + 4 <= bytes@.len() {
            Ok(int_at(bytes@, offset as int))
        } else {
            Err(PackError::RecordTruncated)
        }),
{
    match read_u32_at(bytes, offset) {
        Ok(value) => Ok(value as i32),
        Err(error) => Err(error),
    }
}

/// The unsigned 64-bit integer at `offset`.
pub fn read_u64_at(bytes: &[u8], offset: usize) -> (result: Result<u64, PackError>)
    requires
        offset + 8 <= usize::MAX,
    ensures
        result == (if offset + 8 <= bytes@.len() {
            Ok(long_at(bytes@, offset as int))
        } else {
            Err(PackError::RecordTruncated)
        }),
{
    match read_array::<8>(bytes, offset) {
        Ok(part) => Ok(read_word(part, 0) as u64 + 0x1_0000_0000 * (read_word(part, 4) as u64)),
        Err(error) => Err(error),
    }
}

/// The number whose bits are stored at `offset`.
pub fn read_f32_at(bytes: &[u8], offset: usize) -> (result: Result<F32, PackError>)
    requires
        offset + 4 <= usize::MAX,
    ensures
        result == (if offset + 4 <= bytes@.len() {
            Ok(float_at(bytes@, offset as int))
        } else {
            Err(PackError::RecordTruncated)
        }),
{
    match read_u32_at(bytes, offset) {
        Ok(bits) => Ok(F32 { bits }),
        Err(error) => Err(error),
    }
}

/// The three numbers whose bits are stored from `offset` on.
fn read_triple_at(bytes: &[u8], offset: usize) -> (result: Result<[F32; 3], PackError>)
    requires
        offset + 12 <= bytes@.len(),
    ensures
        result matches Ok(triple) && triple == triple_at(bytes@, offset as int),
{
    assert(bytes.len() <= usize::MAX);
    let triple: [F32; 3] = [
        read_f32_at(bytes, offset)?,
        read_f32_at(bytes, offset + 4)?,
        read_f32_at(bytes, offset + 8)?,
    ];
    assert(triple =~= triple_at(bytes@, offset as int));
    Ok(triple)
}

/// The chunk record at `offset`.
pub fn read_chunk_record(bytes: &[u8], offset: usize) -> (result: Result<PackChunk, PackError>)
    requires
        offset + 64 <= usize::MAX,
    ensures
        result == (if offset + 64 <= bytes@.len() {
            Ok(chunk_at(bytes@, offset as int))
        } else {
            Err(PackError::RecordTruncated)
        }),
{
    let record = match read_array::<64>(bytes, offset) {
        Ok(record) => record,
        Err(error) => return Err(error),
    };
    let chunk = PackChunk {
        entry: ChunkEntry {
            grid: [read_i32_at(record, 0)?, read_i32_at(record, 4)?, read_i32_at(record, 8)?],
            aabb_min: read_triple_at(record, 12)?,
            aabb_max: read_triple_at(record, 24)?,
            offset: read_u32_at(record, 36)?,
            count: read_u32_at(record, 40)?,
        },
        first_page: read_u32_at(record, 44)?,
        page_count: read_u32_at(record, 48)?,
    };
    proof {
        let want = chunk_at(bytes@, offset as int);
        assert(chunk.entry.grid =~= want.entry.grid);
        assert(chunk.entry.aabb_min =~= want.entry.aabb_min);
        assert(chunk.entry.aabb_max =~= want.entry.aabb_max);
    }
    Ok(chunk)
}

/// The level-of-detail record at `offset`.
pub fn read_node_lod_record(bytes: &[u8], offset: usize) -> (result: Result<PackNodeLod, PackError>)
    requires
        offset + 32 <= usize::MAX,
    ensures
        result == (if offset + 32 <= bytes@.len() {
            Ok(lod_at(bytes@, offset as int))
        } else {
            Err(PackError::RecordTruncated)
        }),
{
    let record = match read_array::<32>(bytes, offset) {
        Ok(record) => record,
        Err(error) => return Err(error),
    };
    Ok(
        PackNodeLod {
            chunk_index: read_u32_at(record, 0)?,
            lod_level: read_u32_at(record, 4)?,
            count: read_u32_at(record, 8)?,
            first_page: read_u32_at(record, 12)?,
            page_count: read_u32_at(record, 16)?,
        },
    )
}

/// The page record at `offset`.
pub fn read_page_record(bytes: &[u8], offset: usize) -> (result: Result<PackPage, PackError>)
    requires
        offset + 32 <= usize::MAX,
    ensures
        result == (if offset + 32 <= bytes@.len() {
            Ok(page_at(bytes@, offset as int))
        } else {
            Err(PackError::RecordTruncated)
        }),
{
    let record = match read_array::<32>(bytes, offset) {
        Ok(record) => record,
        Err(error) => return Err(error),
    };
    Ok(
        PackPage {
            chunk_index: read_u32_at(record, 0)?,
            start_in_lod: read_u32_at(record, 4)?,
            count: read_u32_at(record, 8)?,
            lod_index: read_u32_at(record, 12)?,
            byte_offset: read_u64_at(record, 16)?,
            byte_len: read_u32_at(record, 24)?,
        },
    )
}

/// Reads the header.
pub fn read_header(bytes: &[u8]) -> (result: Result<PackHeader, PackError>)
    ensures
        result == parsed_header(bytes@),
{
    if bytes.len() < 160 {
        return Err(PackError::HeaderTruncated);
    }
    let known: bool = bytes[0] == 0x47 && bytes[1] == 0x53 && bytes[2] == 0x50 && bytes[3] == 0x41
        && bytes[4] == 0x43 && bytes[5] == 0x4b && bytes[6] == 0x31 && bytes[7] == 0x00;
    proof {
        let start = bytes@.subrange(0, 8);
        if known {
            assert(start =~= magic());
        } else {
            assert(start[0] == bytes@[0] && start[1] == bytes@[1] && start[2] == bytes@[2]);
            assert(start[3] == bytes@[3] && start[4] == bytes@[4] && start[5] == bytes@[5]);
            assert(start[6] == bytes@[6] && start[7] == bytes@[7]);
        }
    }
    if !known {
        return Err(PackError::InvalidMagic);
    }
    let version: u32 = read_u32_at(bytes, 8)?;
    if version != VERSION {
        return Err(PackError::UnsupportedVersion(version));
    }
    let encoding: u32 = read_u32_at(bytes, 96)?;
    if encoding != ENCODING_PACKED_RGBA8 {
        return Err(PackError::UnsupportedEncoding(encoding));
    }
    proof {
        reveal(header_at);
    }
    let degree: i32 = read_i32_at(bytes, 20)?;
    let header = PackHeader {
        point_count: read_u32_at(bytes, 12)?,
        stride: read_u32_at(bytes, 16)?,
        record_bytes: read_u32_at(bytes, 100)?,
        sh_degree_available: if degree < 0 {
            0
        } else {
            read_u32_at(bytes, 20)?
        },
        chunk_size: read_f32_at(bytes, 24)?,
        grid_origin: read_triple_at(bytes, 28)?,
        ranges: QuantizationRanges {
            position_min: read_triple_at(bytes, 104)?,
            position_max: read_triple_at(bytes, 116)?,
            scale_min: read_triple_at(bytes, 128)?,
            scale_max: read_triple_at(bytes, 140)?,
            sh_min: read_f32_at(bytes, 152)?,
            sh_max: read_f32_at(bytes, 156)?,
        },
        chunk_count: read_u32_at(bytes, 40)?,
        node_lod_count: read_u32_at(bytes, 80)?,
        lod_levels: read_u32_at(bytes, 84)?,
        page_count: read_u32_at(bytes, 44)?,
        chunk_table_offset: read_u64_at(bytes, 48)?,
        node_lod_table_offset: read_u64_at(bytes, 72)?,
        page_table_offset: read_u64_at(bytes, 56)?,
        payload_offset: read_u64_at(bytes, 64)?,
    };
    Ok(header)
}

/// Whether `len` bytes hold a table of `count` records of `size` bytes from `base` on.
pub open spec fn holds_table(len: nat, base: int, count: int, size: int) -> bool {
    count == 0 || base + size * count <= len
}

/// Whether the bytes hold a table.
fn has_table(bytes: &[u8], base: u64, count: u32, size: u32) -> (result: bool)
    ensures
        result == holds_table(bytes@.len(), base as int, count as int, size as int),
{
    let len: u64 = bytes.len() as u64;
    assert(count as u64 * size as u64 <= 0xffff_ffff * 0xffff_ffff) by (nonlinear_arith)
        requires
            count <= 0xffff_ffff,
            size <= 0xffff_ffff,
    ;
    assert(count as int * size as int == size * count) by (nonlinear_arith);
    count == 0 || (base <= len && count as u64 * size as u64 <= len - base)
}

/// The chunks of a table.
pub open spec fn chunks_at(bytes: Seq<u8>, base: int, count: int) -> Seq<PackChunk> {
    Seq::new(count as nat, |i: int| chunk_at(bytes, base + 64 * i))
}

/// The levels of detail of a table.
pub open spec fn lods_at(bytes: Seq<u8>, base: int, count: int) -> Seq<PackNodeLod> {
    Seq::new(count as nat, |i: int| lod_at(bytes, base + 32 * i))
}

/// The pages of a table.
pub open spec fn pages_at(bytes: Seq<u8>, base: int, count: int) -> Seq<PackPage> {
    Seq::new(count as nat, |i: int| page_at(bytes, base + 32 * i))
}

/// The index that a header and its three tables make.
pub open spec fn index_of(
    path: Seq<char>,
    header: PackHeader,
    chunks: Seq<PackChunk>,
    lods: Seq<PackNodeLod>,
    pages: Seq<PackPage>,
) -> PackIndexView {
    PackIndexView {
        path,
        point_count: header.point_count,
        stride: header.stride as usize,
        record_bytes: header.record_bytes as usize,
        sh_degree_available: header.sh_degree_available as i32,
        chunk_size: header.chunk_size,
        grid_origin: header.grid_origin,
        ranges: header.ranges,
        lod_levels: header.lod_levels,
        chunks,
        lods,
        pages,
    }
}

/// What reading the tables of a header gives.
pub open spec fn parsed_tables(
    path: Seq<char>,
    header: PackHeader,
    chunk_bytes: Seq<u8>,
    chunk_base: int,
    lod_bytes: Seq<u8>,
    lod_base: int,
    page_bytes: Seq<u8>,
    page_base: int,
) -> Result<PackIndexView, PackError> {
    if !holds_table(chunk_bytes.len(), chunk_base, header.chunk_count as int, 64) {
        Err(PackError::ChunkTableTruncated)
    } else if !holds_table(lod_bytes.len(), lod_base, header.node_lod_count as int, 32) {
        Err(PackError::LodTableTruncated)
    } else if !holds_table(page_bytes.len(), page_base, header.page_count as int, 32) {
        Err(PackError::PageTableTruncated)
    } else {
        Ok(
            index_of(
                path,
                header,
                chunks_at(chunk_bytes, chunk_base, header.chunk_count as int),
                lods_at(lod_bytes, lod_base, header.node_lod_count as int),
                pages_at(page_bytes, page_base, header.page_count as int),
            ),
        )
    }
}

/// What reading a whole pack gives.
pub open spec fn parsed_index(path: Seq<char>, image: Seq<u8>) -> Result<PackIndexView, PackError> {
    match parsed_header(image) {
        Err(error) => Err(error),
        Ok(header) => parsed_tables(
            path,
            header,
            image,
            header.chunk_table_offset as int,
            image,
            header.node_lod_table_offset as int,
            image,
            header.page_table_offset as int,
        ),
    }
}

/// The outcome of reading, with the index taken by its contents.
pub open spec fn outcome(result: Result<GsplatPackIndex, PackError>) -> Result<
    PackIndexView,
    PackError,
> {
    match result {
        Ok(index) => Ok(index@),
        Err(error) => Err(error),
    }
}

/// Reads the tables that a header announces. Each table lies in bytes of its own, from its base
/// on; where the whole file is at hand, all three are that file.
pub fn read_tables(
    path: String,
    header: &PackHeader,
    chunk_bytes: &[u8],
    chunk_base: u64,
    lod_bytes: &[u8],
    lod_base: u64,
    page_bytes: &[u8],
    page_base: u64,
) -> (result: Result<GsplatPackIndex, PackError>)
    ensures
        outcome(result) == parsed_tables(
            path@,
            *header,
            chunk_bytes@,
            chunk_base as int,
            lod_bytes@,
            lod_base as int,
            page_bytes@,
            page_base as int,
        ),
{
    if !has_table(chunk_bytes, chunk_base, header.chunk_count, 64) {
        return Err(PackError::ChunkTableTruncated);
    }
    if !has_table(lod_bytes, lod_base, header.node_lod_count, 32) {
        return Err(PackError::LodTableTruncated);
    }
    if !has_table(page_bytes, page_base, header.page_count, 32) {
        return Err(PackError::PageTableTruncated);
    }
    let mut chunks: Vec<PackChunk> = Vec::new();
    let mut i: u32 = 0;
    assert(chunk_bytes.len() <= usize::MAX && lod_bytes.len() <= usize::MAX && page_bytes.len()
        <= usize::MAX);
    while i < header.chunk_count
        invariant
            i <= header.chunk_count,
            holds_table(chunk_bytes@.len(), chunk_base as int, header.chunk_count as int, 64),
            chunk_bytes@.len() <= usize::MAX,
            chunks@ == chunks_at(chunk_bytes@, chunk_base as int, i as int),
        decreases header.chunk_count - i,
    {
        chunks.push(read_chunk_record(chunk_bytes, chunk_base as usize + 64 * (i as usize))?);
        i = i + 1;
        assert(chunks@ =~= chunks_at(chunk_bytes@, chunk_base as int, i as int));
    }
    let mut lods: Vec<PackNodeLod> = Vec::new();
    i = 0;
    while i < header.node_lod_count
        invariant
            i <= header.node_lod_count,
            holds_table(lod_bytes@.len(), lod_base as int, header.node_lod_count as int, 32),
            lod_bytes@.len() <= usize::MAX,
            lods@ == lods_at(lod_bytes@, lod_base as int, i as int),
        decreases header.node_lod_count - i,
    {
        lods.push(read_node_lod_record(lod_bytes, lod_base as usize + 32 * (i as usize))?);
        i = i + 1;
        assert(lods@ =~= lods_at(lod_bytes@, lod_base as int, i as int));
    }
    let mut pages: Vec<PackPage> = Vec::new();
    i = 0;
    while i < header.page_count
        invariant
            i <= header.page_count,
            holds_table(page_bytes@.len(), page_base as int, header.page_count as int, 32),
            page_bytes@.len() <= usize::MAX,
            pages@ == pages_at(page_bytes@, page_base as int, i as int),
        decreases header.page_count - i,
    {
        pages.push(read_page_record(page_bytes, page_base as usize + 32 * (i as usize))?);
        i = i + 1;
        assert(pages@ =~= pages_at(page_bytes@, page_base as int, i as int));
    }
    Ok(
        GsplatPackIndex {
            path,
            point_count: header.point_count,
            stride: header.stride as usize,
            record_bytes: header.record_bytes as usize,
            sh_degree_available: header.sh_degree_available as i32,
            chunk_size: header.chunk_size,
            grid_origin: header.grid_origin,
            position_min: header.ranges.position_min,
            position_max: header.ranges.position_max,
            scale_min: header.ranges.scale_min,
            scale_max: header.ranges.scale_max,
            sh_min: header.ranges.sh_min,
            sh_max: header.ranges.sh_max,
            lod_levels: header.lod_levels,
            chunks,
            lods,
            pages,
        },
    )
}

/// Reads the index of a pack whose bytes are all at hand.
pub fn read_pack_index(path: String, image: &[u8]) -> (result: Result<GsplatPackIndex, PackError>)
    ensures
        outcome(result) == parsed_index(path@, image@),
{
    let header: PackHeader = match read_header(image) {
        Ok(header) => header,
        Err(error) => return Err(error),
    };
    read_tables(
        path,
        &header,
        image,
        header.chunk_table_offset,
        image,
        header.node_lod_table_offset,
        image,
        header.page_table_offset,
    )
}

/// What reading one page of a pack gives.
pub open spec fn parsed_page(pages: Seq<PackPage>, image: Seq<u8>, page_index: u32) -> Result<
    Seq<u8>,
    PackError,
> {
    if page_index >= pages.len() {
        Err(PackError::PageOutOfRange(page_index))
    } else {
        let page = pages[page_index as int];
        if page.byte_len == 0 {
            Ok(Seq::empty())
        } else if page.byte_offset + page.byte_len > image.len() {
            Err(PackError::PageTruncated(page_index))
        } else {
            Ok(image.subrange(page.byte_offset as int, page.byte_offset + page.byte_len))
        }
    }
}

impl GsplatPackIndex {
    /// Where the bytes of a page are: the offset in the file, and how many.
    pub fn page_span(&self, page_index: u32) -> (result: Result<(u64, u32), PackError>)
        ensures
            result == (if page_index < self.pages@.len() {
                Ok(
                    (
                        self.pages@[page_index as int].byte_offset,
                        self.pages@[page_index as int].byte_len,
                    ),
                )
            } else {
                Err(PackError::PageOutOfRange(page_index))
            }),
    {
        if page_index as usize >= self.pages.len() {
            return Err(PackError::PageOutOfRange(page_index));
        }
        let page: PackPage = self.pages[page_index as usize];
        Ok((page.byte_offset, page.byte_len))
    }

    /// The bytes of a page of a pack whose bytes are all at hand.
    pub fn read_page_bytes(&self, image: &[u8], page_index: u32) -> (result: Result<
        Vec<u8>,
        PackError,
    >)
        ensures
            match result {
                Ok(bytes) => parsed_page(self.pages@, image@, page_index) == Ok::<
                    Seq<u8>,
                    PackError,
                >(bytes@),
                Err(error) => parsed_page(self.pages@, image@, page_index) == Err::<
                    Seq<u8>,
                    PackError,
                >(error),
            },
    {
        let (byte_offset, byte_len): (u64, u32) = match self.page_span(page_index) {
            Ok(span) => span,
            Err(error) => return Err(error),
        };
        let mut bytes: Vec<u8> = Vec::new();
        if byte_len == 0 {
            return Ok(bytes);
        }
        let len: u64 = image.len() as u64;
        if byte_offset > len || byte_len as u64 > len - byte_offset {
            return Err(PackError::PageTruncated(page_index));
        }
        let start: usize = byte_offset as usize;
        bytes.extend_from_slice(slice_subrange(image, start, start + byte_len as usize));
        assert(bytes@ =~= image@.subrange(byte_offset as int, byte_offset + byte_len));
        Ok(bytes)
    }
}

/// What a file gives when `len` bytes are read from `offset` on: as many of them as there are.
pub open spec fn span(file: Seq<u8>, offset: int, len: int) -> Seq<u8> {
    let end = if offset + len <= file.len() {
        offset + len
    } else {
        file.len() as int
    };
    if offset <= end {
        file.subrange(offset, end)
    } else {
        Seq::empty()
    }
}

proof fn lemma_header_alone(file: Seq<u8>)
    ensures
        parsed_header(span(file, 0, 160)) == parsed_header(file),
{
    let part = span(file, 0, 160);
    if file.len() < 160 {
        assert(part =~= file);
    } else {
        assert(part.subrange(0, 8) =~= file.subrange(0, 8));
        assert forall|at: int| 0 <= at <= 156 implies #[trigger] word_at(part, at) == word_at(
            file,
            at,
        ) by {}
        reveal(header_at);
        let (a, b) = (header_at(part), header_at(file));
        assert(a.grid_origin =~= b.grid_origin);
        assert(a.ranges.position_min =~= b.ranges.position_min);
        assert(a.ranges.position_max =~= b.ranges.position_max);
        assert(a.ranges.scale_min =~= b.ranges.scale_min);
        assert(a.ranges.scale_max =~= b.ranges.scale_max);
    }
}

proof fn lemma_table_alone(file: Seq<u8>, base: int, count: int)
    requires
        base >= 0,
        count >= 0,
    ensures
        holds_table(span(file, base, 64 * count).len(), 0, count, 64) == holds_table(
            file.len(),
            base,
            count,
            64,
        ),
        holds_table(span(file, base, 32 * count).len(), 0, count, 32) == holds_table(
            file.len(),
            base,
            count,
            32,
        ),
        holds_table(file.len(), base, count, 64) ==> chunks_at(
            span(file, base, 64 * count),
            0,
            count,
        ) == chunks_at(file, base, count),
        holds_table(file.len(), base, count, 32) ==> lods_at(span(file, base, 32 * count), 0, count)
            == lods_at(file, base, count),
        holds_table(file.len(), base, count, 32) ==> pages_at(
            span(file, base, 32 * count),
            0,
            count,
        ) == pages_at(file, base, count),
{
    if count > 0 && base + 64 * count <= file.len() {
        let part = span(file, base, 64 * count);
        assert forall|i: int| 0 <= i < count implies #[trigger] chunk_at(part, 0 + 64 * i)
            == chunk_at(file, base + 64 * i) by {
            let (a, b) = (chunk_at(part, 0 + 64 * i), chunk_at(file, base + 64 * i));
            assert(a.entry.grid =~= b.entry.grid);
            assert(a.entry.aabb_min =~= b.entry.aabb_min);
            assert(a.entry.aabb_max =~= b.entry.aabb_max);
        }
    }
    assert(holds_table(file.len(), base, count, 64) ==> chunks_at(
        span(file, base, 64 * count),
        0,
        count,
    ) =~= chunks_at(file, base, count));
    assert(holds_table(file.len(), base, count, 32) ==> lods_at(
        span(file, base, 32 * count),
        0,
        count,
    ) =~= lods_at(file, base, count));
    assert(holds_table(file.len(), base, count, 32) ==> pages_at(
        span(file, base, 32 * count),
        0,
        count,
    ) =~= pages_at(file, base, count));
}

/// Whether a pack is read as a whole or its header and each of its tables on their own, the outcome
/// is the same.
pub proof fn tables_may_be_read_apart(path: Seq<char>, file: Seq<u8>)
    ensures
        match parsed_header(span(file, 0, 160)) {
            Err(error) => parsed_index(path, file) == Err::<PackIndexView, PackError>(error),
            Ok(header) => parsed_index(path, file) == parsed_tables(
                path,
                header,
                span(file, header.chunk_table_offset as int, 64 * header.chunk_count),
                0,
                span(file, header.node_lod_table_offset as int, 32 * header.node_lod_count),
                0,
                span(file, header.page_table_offset as int, 32 * header.page_count),
                0,
            ),
        },
{
    lemma_header_alone(file);
    if let Ok(header) = parsed_header(file) {
        lemma_table_alone(file, header.chunk_table_offset as int, header.chunk_count as int);
        lemma_table_alone(file, header.node_lod_table_offset as int, header.node_lod_count as int);
        lemma_table_alone(file, header.page_table_offset as int, header.page_count as int);
    }
}

} // verus!
