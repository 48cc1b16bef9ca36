//! Disk-backed splat payload packs for large scenes.
//!
//! A pack holds quantized splat records, in pages, so that a renderer can upload the pages it
//! selects as they are.

use crate::chunking::{ChunkEntry, POINT_STRIDE_FLOATS};
use crate::floats::F32;
use crate::text::{nat_text, push_nat};
use vstd::prelude::*;
use vstd::string::*;

pub mod format;
pub mod laws;
pub mod layout;
pub mod ranges;
pub mod reader;
pub mod records;
pub mod selection;
pub mod writer;

verus! {

/// The format version that this library reads and writes.
pub const VERSION: u32 = 3;

/// Splats per page unless the caller says otherwise.
pub const DEFAULT_PAGE_SPLATS: u32 = 16_384;

/// Bytes of the header.
pub const HEADER_SIZE: u64 = 160;

/// Bytes of one chunk record.
pub const CHUNK_RECORD_SIZE: u64 = 64;

/// Bytes of one page record.
pub const PAGE_RECORD_SIZE: u64 = 32;

/// Bytes of one level-of-detail record.
pub const NODE_LOD_RECORD_SIZE: u64 = 32;

/// The one record encoding there is: quantized records that fit an RGBA8 texture.
pub const ENCODING_PACKED_RGBA8: u32 = 1;

/// Levels of detail per chunk.
pub const DEFAULT_LOD_LEVELS: u32 = 4;

/// A chunk and the pages that hold its levels of detail.
#[derive(Clone, Copy, Debug, PartialEq, Eq)]
pub struct PackChunk {
    pub entry: ChunkEntry,
    pub first_page: u32,
    pub page_count: u32,
}

/// A page: consecutive records of one level of detail.
#[derive(Clone, Copy, Debug, PartialEq, Eq, Structural)]
pub struct PackPage {
    pub chunk_index: u32,
    pub lod_index: u32,
    pub start_in_lod: u32,
    pub count: u32,
    pub byte_offset: u64,
    pub byte_len: u32,
}

/// One level of detail of a chunk.
#[derive(Clone, Copy, Debug, PartialEq, Eq, Structural)]
pub struct PackNodeLod {
    pub chunk_index: u32,
    pub lod_level: u32,
    pub count: u32,
    pub first_page: u32,
    pub page_count: u32,
}

/// The ranges that quantized records are spread over.
#[derive(Clone, Copy, Debug, PartialEq, Eq)]
pub struct QuantizationRanges {
    pub position_min: [F32; 3],
    pub position_max: [F32; 3],
    pub scale_min: [F32; 3],
    pub scale_max: [F32; 3],
    pub sh_min: F32,
    pub sh_max: F32,
}

/// The fixed part of a pack.
#[derive(Clone, Copy, Debug, PartialEq, Eq)]
pub struct PackHeader {
    pub point_count: u32,
    pub stride: u32,
    pub record_bytes: u32,
    pub sh_degree_available: u32,
    pub chunk_size: F32,
    pub grid_origin: [F32; 3],
    pub ranges: QuantizationRanges,
    pub chunk_count: u32,
    pub node_lod_count: u32,
    pub lod_levels: u32,
    pub page_count: u32,
    pub chunk_table_offset: u64,
    pub node_lod_table_offset: u64,
    pub page_table_offset: u64,
    pub payload_offset: u64,
}

/// What a pack holds, apart from the records themselves.
#[derive(Clone, Debug)]
pub struct GsplatPackIndex {
    pub path: String,
    pub point_count: u32,
    pub stride: usize,
    pub record_bytes: usize,
    pub sh_degree_available: i32,
    pub chunk_size: F32,
    pub grid_origin: [F32; 3],
    pub position_min: [F32; 3],
    pub position_max: [F32; 3],
    pub scale_min: [F32; 3],
    pub scale_max: [F32; 3],
    pub sh_min: F32,
    pub sh_max: F32,
    pub lod_levels: u32,
    pub chunks: Vec<PackChunk>,
    pub lods: Vec<PackNodeLod>,
    pub pages: Vec<PackPage>,
}

/// The contents of a pack index.
#[verifier::ext_equal]
pub struct PackIndexView {
    pub path: Seq<char>,
    pub point_count: u32,
    pub stride: usize,
    pub record_bytes: usize,
    pub sh_degree_available: i32,
    pub chunk_size: F32,
    pub grid_origin: [F32; 3],
    pub ranges: QuantizationRanges,
    pub lod_levels: u32,
    pub chunks: Seq<PackChunk>,
    pub lods: Seq<PackNodeLod>,
    pub pages: Seq<PackPage>,
}

impl View for GsplatPackIndex {
    type V = PackIndexView;

    open spec fn view(&self) -> PackIndexView {
        PackIndexView {
            path: self.path@,
            point_count: self.point_count,
            stride: self.stride,
            record_bytes: self.record_bytes,
            sh_degree_available: self.sh_degree_available,
            chunk_size: self.chunk_size,
            grid_origin: self.grid_origin,
            ranges: QuantizationRanges {
                position_min: self.position_min,
                position_max: self.position_max,
                scale_min: self.scale_min,
                scale_max: self.scale_max,
                sh_min: self.sh_min,
                sh_max: self.sh_max,
            },
            lod_levels: self.lod_levels,
            chunks: self.chunks@,
            lods: self.lods@,
            pages: self.pages@,
        }
    }
}

/// Why a pack cannot be written or read.
#[derive(Clone, Copy, Debug, PartialEq, Eq, Structural)]
pub enum PackError {
    /// The payload is no whole number of splats.
    PayloadMisaligned,
    /// A page holds more bytes than its record can say.
    PageBytesOverflow,
    /// The pack has more of something than its counters can say.
    TooLarge,
    /// A chunk reaches past the end of the payload.
    SourceIndexOutOfRange,
    /// The file ends within the header.
    HeaderTruncated,
    /// The file does not start as a pack does.
    InvalidMagic,
    /// The file has another version.
    UnsupportedVersion(u32),
    /// The file has another encoding.
    UnsupportedEncoding(u32),
    /// The file ends within the chunk table.
    ChunkTableTruncated,
    /// The file ends within the level-of-detail table.
    LodTableTruncated,
    /// The file ends within the page table.
    PageTableTruncated,
    /// A field reaches past the end of its record.
    RecordTruncated,
    /// There is no such page.
    PageOutOfRange(u32),
    /// The file ends within a page.
    PageTruncated(u32),
}

/// How many higher-order coefficients a splat of the given degree carries: three channels of
/// `(degree + 1)^2 - 1` each, for degrees from 0 to 3.
pub open spec fn sh_count(degree: int) -> int {
    if degree <= 0 {
        0
    } else if degree == 1 {
        9
    } else if degree == 2 {
        24
    } else {
        45
    }
}

/// How many higher-order coefficients a splat of the given degree carries.
pub fn sh_floats(degree: i32) -> (count: usize)
    ensures
        count == sh_count(degree as int),
        count <= 45,
{
    if degree <= 0 {
        0
    } else if degree == 1 {
        9
    } else if degree == 2 {
        24
    } else {
        45
    }
}

/// The highest degree whose coefficients fit in a splat of `stride` numbers.
pub open spec fn stride_degree(stride: int) -> int {
    if stride >= POINT_STRIDE_FLOATS + sh_count(3) {
        3
    } else if stride >= POINT_STRIDE_FLOATS + sh_count(2) {
        2
    } else if stride >= POINT_STRIDE_FLOATS + sh_count(1) {
        1
    } else {
        0
    }
}

/// The highest degree whose coefficients fit in a splat of `stride` numbers.
pub fn max_sh_degree_for_stride(stride: usize) -> (degree: i32)
    ensures
        degree == stride_degree(stride as int),
        0 <= degree <= 3,
{
    let extra: usize = stride.saturating_sub(POINT_STRIDE_FLOATS);
    if extra >= 45 {
        3
    } else if extra >= 24 {
        2
    } else if extra >= 9 {
        1
    } else {
        0
    }
}

/// The bytes of one record: 24 for the core fields and one per coefficient, filled up to a
/// multiple of four.
pub open spec fn record_size(degree: int) -> int {
    (24 + sh_count(degree) + 3) / 4 * 4
}

/// The bytes of one record.
pub fn packed_record_bytes(sh_degree_available: i32) -> (bytes: usize)
    ensures
        bytes == record_size(sh_degree_available as int),
        24 <= bytes <= 72,
        bytes % 4 == 0,
{
    (24 + sh_floats(sh_degree_available) + 3) / 4 * 4
}

/// What to tell a person about an error.
pub open spec fn error_text(error: PackError) -> Seq<char> {
    match error {
        PackError::PayloadMisaligned => "Pack payload length is not aligned to the chunk stride."@,
        PackError::PageBytesOverflow => "Pack page byte length overflowed."@,
        PackError::TooLarge => "Pack is too large for its format."@,
        PackError::SourceIndexOutOfRange => "Pack source index exceeds payload length."@,
        PackError::HeaderTruncated => "Failed to read pack header: failed to fill whole buffer"@,
        PackError::InvalidMagic => "Invalid gsplat pack magic."@,
        PackError::UnsupportedVersion(version) => "Unsupported gsplat pack version "@ + nat_text(
            version as int,
        ) + "."@,
        PackError::UnsupportedEncoding(encoding) => "Unsupported gsplat pack encoding "@
            + nat_text(encoding as int) + "."@,
        PackError::ChunkTableTruncated =>
            "Failed to read pack chunk record: failed to fill whole buffer"@,
        PackError::LodTableTruncated =>
            "Failed to read pack node LOD record: failed to fill whole buffer"@,
        PackError::PageTableTruncated =>
            "Failed to read pack page record: failed to fill whole buffer"@,
        PackError::RecordTruncated => "Pack record is truncated."@,
        PackError::PageOutOfRange(page) => "Pack page "@ + nat_text(page as int)
            + " is out of range."@,
        PackError::PageTruncated(page) => "Failed to read pack page "@ + nat_text(page as int)
            + ": failed to fill whole buffer"@,
    }
}

/// A text around a number.
fn number_text(before: &str, number: u32, after: &str) -> (text: String)
    ensures
        text@ == before@ + nat_text(number as int) + after@,
{
    let mut text: String = before.to_owned();
    push_nat(&mut text, number as u64);
    text.append(after);
    text
}

impl PackError {
    /// What to tell a person about the error.
    pub fn message(&self) -> (text: String)
        ensures
            text@ == error_text(*self),
    {
        match self {
            PackError::PayloadMisaligned =>
                "Pack payload length is not aligned to the chunk stride.".to_owned(),
            PackError::PageBytesOverflow => "Pack page byte length overflowed.".to_owned(),
            PackError::TooLarge => "Pack is too large for its format.".to_owned(),
            PackError::SourceIndexOutOfRange =>
                "Pack source index exceeds payload length.".to_owned(),
            PackError::HeaderTruncated =>
                "Failed to read pack header: failed to fill whole buffer".to_owned(),
            PackError::InvalidMagic => "Invalid gsplat pack magic.".to_owned(),
            PackError::UnsupportedVersion(version) => number_text(
                "Unsupported gsplat pack version ",
                *version,
                ".",
            ),
            PackError::UnsupportedEncoding(encoding) => number_text(
                "Unsupported gsplat pack encoding ",
                *encoding,
                ".",
            ),
            PackError::ChunkTableTruncated =>
                "Failed to read pack chunk record: failed to fill whole buffer".to_owned(),
            PackError::LodTableTruncated =>
                "Failed to read pack node LOD record: failed to fill whole buffer".to_owned(),
            PackError::PageTableTruncated =>
                "Failed to read pack page record: failed to fill whole buffer".to_owned(),
            PackError::RecordTruncated => "Pack record is truncated.".to_owned(),
            PackError::PageOutOfRange(page) => number_text("Pack page ", *page, " is out of range."),
            PackError::PageTruncated(page) => number_text(
                "Failed to read pack page ",
                *page,
                ": failed to fill whole buffer",
            ),
        }
    }
}

} // verus!
