//! Building what is rendered: the per-splat data texture, the centers for sorting, the draws.

use crate::chunking::{
    effective_splat_stride, field_of, gather_active, gathered, ChunkTable, POINT_STRIDE_FLOATS,
};
use crate::cloud_settings::MIN_SCALE_MULTIPLIER_BITS;
use crate::extents::{column, column_extent, highest, lemma_field_within, lowest};
use crate::floats::{F32, MINUS_ONE_BITS, ONE_BITS, ZERO_BITS};
use crate::gsplat_pack::layout::{effective_stride, least};
use crate::gsplat_pack::selection::selected_total;
use crate::gsplat_pack::{sh_count, sh_floats, QuantizationRanges};
use crate::words::{float_bytes, floats_to_bytes};
use vstd::arithmetic::div_mod::{lemma_fundamental_div_mod, lemma_fundamental_div_mod_converse};
use vstd::multiset::Multiset;
use vstd::prelude::*;
use vstd::slice::slice_subrange;

verus! {

/// Texels in a row of the data texture.
pub const SPLAT_DATA_TEX_WIDTH: usize = 4096;

/// Rows that the data texture can have at most.
pub const MAX_DATA_TEX_HEIGHT: usize = 16384;

/// The largest selection that is still built at once at run time.
pub const SYNC_BUILD_MAX_SPLATS: usize = 500_000;

/// How the data texture is stored.
#[derive(Clone, Copy, Debug, PartialEq, Eq, Structural)]
pub enum ImageFormat {
    Rgbaf,
    Rgba8,
}

/// A splat's rotation, made a unit quaternion, and its scale, multiplied as the settings say.
#[derive(Clone, Copy, Debug, PartialEq, Eq)]
pub struct PreparedSplat {
    pub rotation: [F32; 4],
    pub scale: [F32; 3],
}

/// What a render set is built from. The bounds are those of the splat centers.
#[derive(Clone, Debug)]
pub struct RawRenderData {
    pub data_bytes: Vec<u8>,
    pub tex_width: i32,
    pub tex_height: i32,
    pub image_format: ImageFormat,
    pub data_encoding: i32,
    pub packed_record_bytes: i32,
    pub ranges: QuantizationRanges,
    pub positions: Vec<F32>,
    pub splat_count: i32,
    pub center_min: [F32; 3],
    pub center_max: [F32; 3],
    pub sh_degree: i32,
}

/// The degree of spherical harmonics, moved into the range there is.
pub open spec fn clamped_degree(degree: i32) -> int {
    if degree < 0 {
        0
    } else if degree > 3 {
        3
    } else {
        degree as int
    }
}

/// The texels that hold the coefficients of a splat.
pub open spec fn sh_texel_count(degree: int) -> int {
    (sh_count(degree) + 3) / 4
}

/// The texels that hold the coefficients of a splat.
pub fn sh_texels(degree: i32) -> (texels: usize)
    ensures
        texels == sh_texel_count(degree as int),
        texels <= 12,
{
    (sh_floats(degree) + 3) / 4
}

/// The most splats whose data texture is no taller than the limit.
pub open spec fn capacity(texels_per_splat: int) -> int {
    (MAX_DATA_TEX_HEIGHT * SPLAT_DATA_TEX_WIDTH) / texels_per_splat
}

/// The most splats whose data texture is no taller than the limit.
pub fn max_packable_points(texels_per_splat: usize) -> (points: usize)
    requires
        texels_per_splat > 0,
    ensures
        points == capacity(texels_per_splat as int),
{
    MAX_DATA_TEX_HEIGHT * SPLAT_DATA_TEX_WIDTH / texels_per_splat
}

/// The texels of one splat: four, and those of its coefficients.
pub open spec fn texels_per_splat(degree: int) -> int {
    4 + sh_texel_count(degree)
}

/// The splats that are packed: all, or as many as the texture holds.
pub open spec fn packed_points(len: int, stride: int, degree: int) -> int {
    least(len / stride, capacity(texels_per_splat(degree)))
}

/// The splats that `pack_raw` packs of `len` numbers.
pub fn packed_point_count(len: usize, stride: usize, sh_degree: i32) -> (points: usize)
    ensures
        points == packed_points(
            len as int,
            effective_stride(stride),
            clamped_degree(sh_degree),
        ),
{
    let width: usize = effective_splat_stride(stride);
    let degree: i32 = if sh_degree < 0 {
        0
    } else if sh_degree > 3 {
        3
    } else {
        sh_degree
    };
    let points: usize = len / width;
    let limit: usize = max_packable_points(4 + sh_texels(degree));
    if points <= limit {
        points
    } else {
        limit
    }
}

/// Number `k` of the texels of the splat in the given slot: center and scale, rotation, color,
/// coefficients, each where the shader looks for it.
pub open spec fn texel_value(
    values: Seq<F32>,
    stride: int,
    prepared: Seq<PreparedSplat>,
    coefficients: int,
    slot: int,
    k: int,
) -> F32 {
    if k < 3 {
        field_of(values, stride, slot, k)
    } else if k < 6 {
        prepared[slot].scale[k - 3]
    } else if k < 10 {
        prepared[slot].rotation[k - 6]
    } else if k < 12 {
        F32 { bits: ZERO_BITS }
    } else if k < 16 {
        field_of(values, stride, slot, k + 2)
    } else if k < 16 + coefficients {
        field_of(values, stride, slot, k + 2)
    } else {
        F32 { bits: ZERO_BITS }
    }
}

/// The numbers of the data texture: the texels of all splats, then zeros.
pub open spec fn texture_values(
    values: Seq<F32>,
    stride: int,
    prepared: Seq<PreparedSplat>,
    degree: int,
    points: int,
    len: int,
) -> Seq<F32> {
    let per_splat = 4 * texels_per_splat(degree);
    Seq::new(
        len as nat,
        |i: int|
            if i / per_splat < points {
                texel_value(
                    values,
                    stride,
                    prepared,
                    sh_count(degree),
                    i / per_splat,
                    i % per_splat,
                )
            } else {
                F32 { bits: ZERO_BITS }
            },
    )
}

/// The rows of a texture that holds `texels` texels: at least one.
pub open spec fn texture_rows(texels: int) -> int {
    let rows = (texels + SPLAT_DATA_TEX_WIDTH - 1) / SPLAT_DATA_TEX_WIDTH as int;
    if rows < 1 {
        1
    } else {
        rows
    }
}

/// The centers of the splats, each followed by one.
pub open spec fn center_quads(values: Seq<F32>, stride: int, points: int) -> Seq<F32> {
    Seq::new(
        (4 * points) as nat,
        |i: int|
            if i % 4 == 3 {
                F32 { bits: ONE_BITS }
            } else {
                field_of(values, stride, i / 4, i % 4)
            },
    )
}

/// Whether the ranges are those of data that is not quantized.
pub open spec fn plain_ranges(ranges: QuantizationRanges) -> bool {
    let zero = F32 { bits: ZERO_BITS };
    let one = F32 { bits: ONE_BITS };
    &&& ranges.position_min@ == seq![zero, zero, zero]
    &&& ranges.position_max@ == seq![one, one, one]
    &&& ranges.scale_min@ == seq![zero, zero, zero]
    &&& ranges.scale_max@ == seq![one, one, one]
    &&& ranges.sh_min.bits == MINUS_ONE_BITS
    &&& ranges.sh_max.bits == ONE_BITS
}

/// The bounds of the centers of the first `points` splats.
pub open spec fn bounds_of(values: Seq<F32>, stride: int, points: int) -> ([F32; 3], [F32; 3]) {
    (
        [
            lowest(column(values, stride, 0, 0, points)),
            lowest(column(values, stride, 1, 0, points)),
            lowest(column(values, stride, 2, 0, points)),
        ],
        [
            highest(column(values, stride, 0, 0, points)),
            highest(column(values, stride, 1, 0, points)),
            highest(column(values, stride, 2, 0, points)),
        ],
    )
}

/// The place of number `k` of slot `slot`.
proof fn lemma_slot_place(slot: int, k: int, per_splat: int)
    requires
        per_splat > 0,
        0 <= slot,
        0 <= k < per_splat,
    ensures
        (slot * per_splat + k) / per_splat == slot,
        (slot * per_splat + k) % per_splat == k,
{
    lemma_fundamental_div_mod_converse(slot * per_splat + k, per_splat, slot, k);
}

/// Whole splats that fit the capacity fit the texture.
proof fn lemma_points_fit(points: int, texels: int)
    requires
        0 <= points <= capacity(texels),
        1 <= texels,
    ensures
        0 <= points * texels <= 0x400_0000,
{
    lemma_fundamental_div_mod(0x400_0000int, texels);
    assert(points * texels <= 0x400_0000) by (nonlinear_arith)
        requires
            0 <= points <= 0x400_0000int / texels,
            0x400_0000int == texels * (0x400_0000int / texels) + 0x400_0000int % texels,
            0 <= 0x400_0000int % texels,
            1 <= texels,
    ;
    assert(0 <= points * texels) by (nonlinear_arith)
        requires
            0 <= points,
            1 <= texels,
    ;
}

/// Lays out the numbers of the data texture.
fn texture_data(
    slice: &[F32],
    stride: usize,
    prepared: &Vec<PreparedSplat>,
    degree: i32,
    points: usize,
    len: usize,
) -> (data: Vec<F32>)
    requires
        0 <= degree <= 3,
        stride >= POINT_STRIDE_FLOATS + sh_count(degree as int),
        points * stride <= slice@.len(),
        points <= prepared@.len(),
        points * (4 * texels_per_splat(degree as int)) <= len,
    ensures
        data@ == texture_values(
            slice@,
            stride as int,
            prepared@,
            degree as int,
            points as int,
            len as int,
        ),
{
    let coefficients: usize = sh_floats(degree);
    let per_splat: usize = 4 * (4 + sh_texels(degree));
    let zero = F32 { bits: ZERO_BITS };
    let ghost want = texture_values(
        slice@,
        stride as int,
        prepared@,
        degree as int,
        points as int,
        len as int,
    );
    let mut data: Vec<F32> = Vec::with_capacity(len);
    let mut slot: usize = 0;
    assert(slice.len() <= usize::MAX);
    assert(0 * per_splat == 0) by (nonlinear_arith);
    while slot < points
        invariant
            slot <= points,
            0 <= degree <= 3,
            coefficients == sh_count(degree as int),
            per_splat == 4 * texels_per_splat(degree as int),
            16 + coefficients <= per_splat <= 64,
            stride >= POINT_STRIDE_FLOATS + coefficients,
            points * stride <= slice@.len() <= usize::MAX,
            points <= prepared@.len(),
            points * per_splat <= len,
            zero.bits == ZERO_BITS,
            want == texture_values(
                slice@,
                stride as int,
                prepared@,
                degree as int,
                points as int,
                len as int,
            ),
            data@.len() == slot * per_splat,
            forall|i: int| 0 <= i < data@.len() ==> #[trigger] data@[i] == want[i],
        decreases points - slot,
    {
        proof {
            lemma_field_within(
                slot as int,
                points as int,
                stride as int,
                stride - 1,
                slice@.len() as int,
            );
            assert((slot + 1) * per_splat == slot * per_splat + per_splat) by (nonlinear_arith);
            assert((slot + 1) * per_splat <= points * per_splat) by (nonlinear_arith)
                requires
                    slot + 1 <= points,
                    per_splat >= 0,
            ;
        }
        let off: usize = slot * stride;
        let own: PreparedSplat = prepared[slot];
        let ghost before = data@;
        let mut k: usize = 0;
        while k < per_splat
            invariant
                slot < points,
                k <= per_splat,
                off == slot * stride,
                off + stride <= slice@.len() <= usize::MAX,
                own == prepared@[slot as int],
                coefficients == sh_count(degree as int),
                per_splat == 4 * texels_per_splat(degree as int),
                16 + coefficients <= per_splat <= 64,
                stride >= POINT_STRIDE_FLOATS + coefficients,
                (slot + 1) * per_splat == slot * per_splat + per_splat,
                (slot + 1) * per_splat <= len,
                zero.bits == ZERO_BITS,
                want == texture_values(
                    slice@,
                    stride as int,
                    prepared@,
                    degree as int,
                    points as int,
                    len as int,
                ),
                data@.len() == slot * per_splat + k,
                forall|i: int| 0 <= i < data@.len() ==> #[trigger] data@[i] == want[i],
            decreases per_splat - k,
        {
            let value: F32 = if k < 3 {
                slice[off + k]
            } else if k < 6 {
                own.scale[k - 3]
            } else if k < 10 {
                own.rotation[k - 6]
            } else if k < 12 {
                zero
            } else if k < 16 + coefficients {
                slice[off + k + 2]
            } else {
                zero
            };
            proof {
                lemma_slot_place(slot as int, k as int, per_splat as int);
                assert(want[slot * per_splat + k] == texel_value(
                    slice@,
                    stride as int,
                    prepared@,
                    coefficients as int,
                    slot as int,
                    k as int,
                ));
            }
            data.push(value);
            k = k + 1;
        }
        slot = slot + 1;
    }
    while data.len() < len
        invariant
            per_splat == 4 * texels_per_splat(degree as int) > 0,
            points * per_splat <= data@.len() <= len,
            zero.bits == ZERO_BITS,
            want == texture_values(
                slice@,
                stride as int,
                prepared@,
                degree as int,
                points as int,
                len as int,
            ),
            forall|i: int| 0 <= i < data@.len() ==> #[trigger] data@[i] == want[i],
        decreases len - data@.len(),
    {
        proof {
            let i = data@.len() as int;
            assert(i / per_splat as int >= points) by (nonlinear_arith)
                requires
                    points * per_splat <= i,
                    per_splat > 0,
            ;
        }
        data.push(zero);
    }
    assert(data@ =~= want);
    data
}

/// The centers of the splats, each followed by one.
fn centers(slice: &[F32], stride: usize, points: usize) -> (positions: Vec<F32>)
    requires
        stride >= POINT_STRIDE_FLOATS,
        points * stride <= slice@.len(),
    ensures
        positions@ == center_quads(slice@, stride as int, points as int),
{
    let mut positions: Vec<F32> = Vec::new();
    let ghost want = center_quads(slice@, stride as int, points as int);
    let mut slot: usize = 0;
    assert(slice.len() <= usize::MAX);
    while slot < points
        invariant
            slot <= points,
            stride >= POINT_STRIDE_FLOATS,
            points * stride <= slice@.len() <= usize::MAX,
            want == center_quads(slice@, stride as int, points as int),
            positions@.len() == 4 * slot,
            forall|i: int| 0 <= i < positions@.len() ==> #[trigger] positions@[i] == want[i],
        decreases points - slot,
    {
        proof {
            lemma_field_within(
                slot as int,
                points as int,
                stride as int,
                2,
                slice@.len() as int,
            );
        }
        let off: usize = slot * stride;
        positions.push(slice[off]);
        positions.push(slice[off + 1]);
        positions.push(slice[off + 2]);
        positions.push(F32 { bits: ONE_BITS });
        slot = slot + 1;
    }
    assert(positions@ =~= want);
    positions
}

/// The bounds of the centers of the first `points` splats.
fn center_extent(values: &[F32], stride: usize, points: usize) -> (bounds: ([F32; 3], [F32; 3]))
    requires
        stride >= 3,
        points * stride <= values@.len(),
    ensures
        bounds == bounds_of(values@, stride as int, points as int),
{
    proof {
        if points > 0 {
            lemma_field_within(
                points - 1,
                points as int,
                stride as int,
                2,
                values@.len() as int,
            );
        }
    }
    let (x0, x1): (F32, F32) = column_extent(values, stride, 0, 0, points);
    let (y0, y1): (F32, F32) = column_extent(values, stride, 1, 0, points);
    let (z0, z1): (F32, F32) = column_extent(values, stride, 2, 0, points);
    let low: [F32; 3] = [x0, y0, z0];
    let high: [F32; 3] = [x1, y1, z1];
    assert(low =~= bounds_of(values@, stride as int, points as int).0);
    assert(high =~= bounds_of(values@, stride as int, points as int).1);
    (low, high)
}

/// The rows of a texture that holds `texels` texels.
fn rows_for(texels: usize) -> (rows: usize)
    requires
        texels <= 0x400_0000,
    ensures
        rows == texture_rows(texels as int),
        1 <= rows <= MAX_DATA_TEX_HEIGHT,
        texels <= rows * SPLAT_DATA_TEX_WIDTH,
{
    let rows: usize = (texels + SPLAT_DATA_TEX_WIDTH - 1) / SPLAT_DATA_TEX_WIDTH;
    if rows < 1 {
        1
    } else {
        rows
    }
}

/// Whether `raw` is what a render set of gathered splats is built from.
pub open spec fn holds_splats(
    raw: RawRenderData,
    slice: Seq<F32>,
    stride: usize,
    sh_degree: i32,
    prepared: Seq<PreparedSplat>,
) -> bool {
    let width = effective_stride(stride);
    let degree = clamped_degree(sh_degree);
    let points = packed_points(slice.len() as int, width, degree);
    let rows = texture_rows(points * texels_per_splat(degree));
    &&& points > 0
    &&& raw.data_bytes@ == float_bytes(
        texture_values(slice, width, prepared, degree, points, 4 * (rows * SPLAT_DATA_TEX_WIDTH)),
    )
    &&& raw.tex_width == SPLAT_DATA_TEX_WIDTH
    &&& raw.tex_height == rows
    &&& raw.image_format == ImageFormat::Rgbaf
    &&& raw.data_encoding == 0
    &&& raw.packed_record_bytes == 0
    &&& plain_ranges(raw.ranges)
    &&& raw.positions@ == center_quads(slice, width, points)
    &&& raw.splat_count == points
    &&& (raw.center_min, raw.center_max) == bounds_of(slice, width, points)
    &&& raw.sh_degree == degree
}

/// Packs gathered splats into what a render set is built from. `prepared` holds the rotation and
/// the scale to use for each of them. More splats than the texture holds are cut off at the end;
/// without any splat there is nothing to render.
pub fn pack_raw(
    slice: &[F32],
    stride: usize,
    sh_degree: i32,
    prepared: &Vec<PreparedSplat>,
) -> (result: Option<RawRenderData>)
    requires
        effective_stride(stride) >= POINT_STRIDE_FLOATS + sh_count(clamped_degree(sh_degree)),
        prepared@.len() >= packed_points(
            slice@.len() as int,
            effective_stride(stride),
            clamped_degree(sh_degree),
        ),
    ensures
        match result {
            None => packed_points(
                slice@.len() as int,
                effective_stride(stride),
                clamped_degree(sh_degree),
            ) == 0,
            Some(raw) => holds_splats(raw, slice@, stride, sh_degree, prepared@),
        },
{
    let width: usize = effective_splat_stride(stride);
    let degree: i32 = if sh_degree < 0 {
        0
    } else if sh_degree > 3 {
        3
    } else {
        sh_degree
    };
    let points: usize = packed_point_count(slice.len(), stride, sh_degree);
    if points == 0 {
        return None;
    }
    let texels: usize = 4 + sh_texels(degree);
    proof {
        lemma_points_fit(points as int, texels as int);
        lemma_fundamental_div_mod(slice@.len() as int, width as int);
        assert(points * width <= slice@.len()) by (nonlinear_arith)
            requires
                points <= slice@.len() as int / width as int,
                slice@.len() as int == width * (slice@.len() as int / width as int)
                    + slice@.len() as int % width as int,
                0 <= slice@.len() as int % width as int,
                width > 0,
        ;
        assert(points * (4 * texels) == 4 * (points * texels)) by (nonlinear_arith);
        assert(points <= points * texels) by (nonlinear_arith)
            requires
                texels >= 1,
                points >= 0,
        ;
    }
    let rows: usize = rows_for(points * texels);
    let len: usize = 4 * (rows * SPLAT_DATA_TEX_WIDTH);
    let data: Vec<F32> = texture_data(slice, width, prepared, degree, points, len);
    let positions: Vec<F32> = centers(slice, width, points);
    let (center_min, center_max): ([F32; 3], [F32; 3]) = center_extent(slice, width, points);
    let zero = F32 { bits: ZERO_BITS };
    let one = F32 { bits: ONE_BITS };
    let ranges = QuantizationRanges {
        position_min: [zero, zero, zero],
        position_max: [one, one, one],
        scale_min: [zero, zero, zero],
        scale_max: [one, one, one],
        sh_min: F32 { bits: MINUS_ONE_BITS },
        sh_max: one,
    };
    assert(ranges.position_min@ =~= seq![zero, zero, zero]);
    assert(ranges.position_max@ =~= seq![one, one, one]);
    assert(ranges.scale_min@ =~= seq![zero, zero, zero]);
    assert(ranges.scale_max@ =~= seq![one, one, one]);
    Some(
        RawRenderData {
            data_bytes: floats_to_bytes(&data),
            tex_width: SPLAT_DATA_TEX_WIDTH as i32,
            tex_height: rows as i32,
            image_format: ImageFormat::Rgbaf,
            data_encoding: 0,
            packed_record_bytes: 0,
            ranges,
            positions,
            splat_count: points as i32,
            center_min,
            center_max,
            sh_degree: degree,
        },
    )
}

/// The texels that hold one record.
pub open spec fn record_texels(record_bytes: int) -> int {
    (record_bytes + 3) / 4
}

/// The records that are packed: all, or as many as the texture holds.
pub open spec fn packed_records(len: int, record_bytes: int) -> int {
    least(len / record_bytes, capacity(record_texels(record_bytes)))
}

/// The texels that hold one record.
fn texels_for_record(record_bytes: usize) -> (texels: usize)
    requires
        record_bytes > 0,
    ensures
        texels == record_texels(record_bytes as int),
        texels >= 1,
{
    if record_bytes % 4 == 0 {
        record_bytes / 4
    } else {
        record_bytes / 4 + 1
    }
}

/// The records that `pack_quantized_records` packs of `len` bytes.
pub fn packed_record_count(len: usize, record_bytes: usize) -> (points: usize)
    requires
        record_bytes > 0,
    ensures
        points == packed_records(len as int, record_bytes as int),
{
    let points: usize = len / record_bytes;
    let limit: usize = max_packable_points(texels_for_record(record_bytes));
    if points <= limit {
        points
    } else {
        limit
    }
}

/// The 16-bit integer stored at `offset`.
pub open spec fn half_at(bytes: Seq<u8>, offset: int) -> u16 {
    (bytes[offset] + 256 * bytes[offset + 1]) as u16
}

/// The 16-bit integer stored at `offset`.
pub fn read_u16(bytes: &[u8], offset: usize) -> (value: u16)
    requires
        offset + 2 <= bytes@.len(),
    ensures
        value == half_at(bytes@, offset as int),
{
    bytes[offset] as u16 + 256 * (bytes[offset + 1] as u16)
}

/// The quantized position in the record of a slot.
pub fn record_position(records: &[u8], record_bytes: usize, slot: usize) -> (position: [u16; 3])
    requires
        record_bytes >= 6,
        (slot + 1) * record_bytes <= records@.len(),
    ensures
        position@ == seq![
            half_at(records@, slot * record_bytes),
            half_at(records@, slot * record_bytes + 2),
            half_at(records@, slot * record_bytes + 4),
        ],
{
    assert((slot + 1) * record_bytes == slot * record_bytes + record_bytes) by (nonlinear_arith);
    assert(0 <= slot * record_bytes) by (nonlinear_arith);
    assert(records.len() <= usize::MAX);
    let start: usize = slot * record_bytes;
    let position: [u16; 3] = [
        read_u16(records, start),
        read_u16(records, start + 2),
        read_u16(records, start + 4),
    ];
    assert(position@ =~= seq![
        half_at(records@, slot * record_bytes),
        half_at(records@, slot * record_bytes + 2),
        half_at(records@, slot * record_bytes + 4),
    ]);
    position
}

/// The bytes of the data texture of quantized records: the records as they are, then zeros.
pub open spec fn record_texture(records: Seq<u8>, used: int, len: int) -> Seq<u8> {
    Seq::new(
        len as nat,
        |i: int|
            if i < used {
                records[i]
            } else {
                0
            },
    )
}

/// The given centers, each followed by one.
pub open spec fn quads_of(centers: Seq<[F32; 3]>, points: int) -> Seq<F32> {
    Seq::new(
        (4 * points) as nat,
        |i: int|
            if i % 4 == 3 {
                F32 { bits: ONE_BITS }
            } else {
                centers[i / 4][i % 4]
            },
    )
}

/// Coordinate `k` of the first `points` centers.
pub open spec fn center_axis(centers: Seq<[F32; 3]>, k: int, points: int) -> Seq<F32> {
    Seq::new(points as nat, |i: int| centers[i][k])
}

/// The bounds of the first `points` centers.
pub open spec fn bounds_of_centers(centers: Seq<[F32; 3]>, points: int) -> ([F32; 3], [F32; 3]) {
    (
        [
            lowest(center_axis(centers, 0, points)),
            lowest(center_axis(centers, 1, points)),
            lowest(center_axis(centers, 2, points)),
        ],
        [
            highest(center_axis(centers, 0, points)),
            highest(center_axis(centers, 1, points)),
            highest(center_axis(centers, 2, points)),
        ],
    )
}

/// The extent of the first `points` centers along axis `k`.
fn axis_extent(centers: &Vec<[F32; 3]>, k: usize, points: usize) -> (extent: (F32, F32))
    requires
        k < 3,
        points <= centers@.len(),
    ensures
        extent.0 == lowest(center_axis(centers@, k as int, points as int)),
        extent.1 == highest(center_axis(centers@, k as int, points as int)),
{
    let mut low = F32 { bits: crate::floats::INFINITY_BITS };
    let mut high = F32 { bits: crate::floats::NEG_INFINITY_BITS };
    let mut i: usize = 0;
    while i < points
        invariant
            k < 3,
            i <= points <= centers@.len(),
            low == lowest(center_axis(centers@, k as int, i as int)),
            high == highest(center_axis(centers@, k as int, i as int)),
        decreases points - i,
    {
        proof {
            assert(center_axis(centers@, k as int, i + 1).drop_last() =~= center_axis(
                centers@,
                k as int,
                i as int,
            ));
        }
        let center: [F32; 3] = centers[i];
        low = low.min(center[k]);
        high = high.max(center[k]);
        i = i + 1;
    }
    (low, high)
}

/// The given centers, each followed by one.
fn center_list(centers: &Vec<[F32; 3]>, points: usize) -> (positions: Vec<F32>)
    requires
        points <= centers@.len(),
    ensures
        positions@ == quads_of(centers@, points as int),
{
    let mut positions: Vec<F32> = Vec::new();
    let ghost want = quads_of(centers@, points as int);
    let mut i: usize = 0;
    while i < points
        invariant
            i <= points <= centers@.len(),
            want == quads_of(centers@, points as int),
            positions@.len() == 4 * i,
            forall|j: int| 0 <= j < positions@.len() ==> #[trigger] positions@[j] == want[j],
        decreases points - i,
    {
        let center: [F32; 3] = centers[i];
        positions.push(center[0]);
        positions.push(center[1]);
        positions.push(center[2]);
        positions.push(F32 { bits: ONE_BITS });
        i = i + 1;
    }
    assert(positions@ =~= want);
    positions
}

/// Whether `raw` is what a render set of quantized records is built from.
pub open spec fn holds_records(
    raw: RawRenderData,
    records: Seq<u8>,
    record_bytes: usize,
    sh_degree: i32,
    centers: Seq<[F32; 3]>,
    ranges: QuantizationRanges,
) -> bool {
    let points = packed_records(records.len() as int, record_bytes as int);
    let rows = texture_rows(points * record_texels(record_bytes as int));
    &&& record_bytes > 0 && records.len() as int % record_bytes as int == 0 && points > 0
    &&& raw.data_bytes@ == record_texture(
        records,
        points * record_bytes,
        4 * (rows * SPLAT_DATA_TEX_WIDTH),
    )
    &&& raw.tex_width == SPLAT_DATA_TEX_WIDTH
    &&& raw.tex_height == rows
    &&& raw.image_format == ImageFormat::Rgba8
    &&& raw.data_encoding == 1
    &&& raw.packed_record_bytes == record_bytes
    &&& raw.ranges == ranges
    &&& raw.positions@ == quads_of(centers, points)
    &&& raw.splat_count == points
    &&& (raw.center_min, raw.center_max) == bounds_of_centers(centers, points)
    &&& raw.sh_degree == clamped_degree(sh_degree)
}

/// Packs quantized records into what a render set is built from. `centers` holds the positions of
/// the records as numbers, `ranges` what the records are spread over, with the scale as the
/// settings say. Records that are no whole number, or none at all, give nothing to render.
pub fn pack_quantized_records(
    records: &[u8],
    record_bytes: usize,
    sh_degree: i32,
    centers: &Vec<[F32; 3]>,
    ranges: &QuantizationRanges,
) -> (result: Option<RawRenderData>)
    requires
        record_bytes > 0 ==> centers@.len() >= packed_records(
            records@.len() as int,
            record_bytes as int,
        ),
    ensures
        match result {
            None => !(record_bytes > 0 && records@.len() as int % record_bytes as int == 0)
                || packed_records(records@.len() as int, record_bytes as int) == 0,
            Some(raw) => holds_records(raw, records@, record_bytes, sh_degree, centers@, *ranges),
        },
{
    if record_bytes == 0 || records.len() % record_bytes != 0 {
        return None;
    }
    let points: usize = packed_record_count(records.len(), record_bytes);
    if points == 0 {
        return None;
    }
    let texels: usize = texels_for_record(record_bytes);
    proof {
        lemma_points_fit(points as int, texels as int);
        lemma_fundamental_div_mod(records@.len() as int, record_bytes as int);
        assert(points * record_bytes <= records@.len()) by (nonlinear_arith)
            requires
                points <= records@.len() as int / record_bytes as int,
                records@.len() as int == record_bytes * (records@.len() as int
                    / record_bytes as int) + records@.len() as int % record_bytes as int,
                0 <= records@.len() as int % record_bytes as int,
                record_bytes > 0,
        ;
        assert(points * record_bytes <= 4 * (points * texels)) by (nonlinear_arith)
            requires
                record_bytes <= 4 * texels,
                points >= 0,
        ;
        assert(texels <= points * texels && points <= points * texels) by (nonlinear_arith)
            requires
                texels >= 1,
                points >= 1,
        ;
    }
    let rows: usize = rows_for(points * texels);
    let len: usize = 4 * (rows * SPLAT_DATA_TEX_WIDTH);
    let used: usize = points * record_bytes;
    let ghost want = record_texture(records@, used as int, len as int);
    let mut data_bytes: Vec<u8> = Vec::with_capacity(len);
    data_bytes.extend_from_slice(slice_subrange(records, 0, used));
    while data_bytes.len() < len
        invariant
            used <= data_bytes@.len() <= len,
            want == record_texture(records@, used as int, len as int),
            forall|i: int| 0 <= i < data_bytes@.len() ==> #[trigger] data_bytes@[i] == want[i],
        decreases len - data_bytes@.len(),
    {
        data_bytes.push(0);
    }
    assert(data_bytes@ =~= want);
    let positions: Vec<F32> = center_list(centers, points);
    let (x0, x1): (F32, F32) = axis_extent(centers, 0, points);
    let (y0, y1): (F32, F32) = axis_extent(centers, 1, points);
    let (z0, z1): (F32, F32) = axis_extent(centers, 2, points);
    let center_min: [F32; 3] = [x0, y0, z0];
    let center_max: [F32; 3] = [x1, y1, z1];
    assert(center_min =~= bounds_of_centers(centers@, points as int).0);
    assert(center_max =~= bounds_of_centers(centers@, points as int).1);
    let degree: i32 = if sh_degree < 0 {
        0
    } else if sh_degree > 3 {
        3
    } else {
        sh_degree
    };
    Some(
        RawRenderData {
            data_bytes,
            tex_width: SPLAT_DATA_TEX_WIDTH as i32,
            tex_height: rows as i32,
            image_format: ImageFormat::Rgba8,
            data_encoding: 1,
            packed_record_bytes: record_bytes as i32,
            ranges: *ranges,
            positions,
            splat_count: points as i32,
            center_min,
            center_max,
            sh_degree: degree,
        },
    )
}

/// The splat that a decimated payload has in the given slot.
pub open spec fn sampled_index(source: int, points: int, slot: int) -> int {
    least(slot * ((source + points - 1) / points), source - 1)
}

/// The most splats that a setting allows; without one, as many as there are.
pub open spec fn splat_limit(max_splats: Option<i32>) -> int {
    match max_splats {
        Some(limit) => if limit < 0 {
            0
        } else {
            limit as int
        },
        None => usize::MAX as int,
    }
}

/// Whether `result` is the payload thinned out evenly to as many splats as allowed; nothing where
/// none is left.
pub open spec fn is_decimated(
    values: Seq<F32>,
    max_splats: Option<i32>,
    result: Option<Seq<F32>>,
) -> bool {
    let source = values.len() as int / POINT_STRIDE_FLOATS as int;
    let points = least(source, splat_limit(max_splats));
    match result {
        None => points == 0,
        Some(slice) => {
            &&& points > 0
            &&& slice.len() == points * POINT_STRIDE_FLOATS
            &&& forall|slot: int, f: int|
                0 <= slot < points && 0 <= f < POINT_STRIDE_FLOATS ==> #[trigger] field_of(
                    slice,
                    POINT_STRIDE_FLOATS as int,
                    slot,
                    f,
                ) == field_of(
                    values,
                    POINT_STRIDE_FLOATS as int,
                    sampled_index(source, points, slot),
                    f,
                )
        },
    }
}

/// Numbers that may be missing.
pub open spec fn optional_values(values: Option<Vec<F32>>) -> Option<Seq<F32>> {
    match values {
        Some(values) => Some(values@),
        None => None,
    }
}

/// Thins a payload out to at most `max_splats` splats, evenly. Nothing comes back where nothing
/// is left.
pub fn decimate_payload(values: &[F32], max_splats: Option<i32>) -> (result: Option<Vec<F32>>)
    ensures
        is_decimated(values@, max_splats, optional_values(result)),
{
    let source: usize = values.len() / POINT_STRIDE_FLOATS;
    let limit: usize = match max_splats {
        Some(limit) => if limit < 0 {
            0
        } else {
            limit as usize
        },
        None => usize::MAX,
    };
    let points: usize = if source <= limit {
        source
    } else {
        limit
    };
    if points == 0 {
        return None;
    }
    let sample: usize = source / points + (if source % points == 0 {
        0
    } else {
        1usize
    });
    proof {
        lemma_ceiling(source as int, points as int);
    }
    let mut slice: Vec<F32> = Vec::new();
    let mut slot: usize = 0;
    assert(values.len() <= usize::MAX);
    while slot < points
        invariant
            1 <= points <= source == values@.len() as int / POINT_STRIDE_FLOATS as int,
            values@.len() <= usize::MAX,
            sample == (source + points - 1) / points as int,
            slot <= points,
            slice@.len() == slot * POINT_STRIDE_FLOATS,
            forall|q: int, f: int|
                0 <= q < slot && 0 <= f < POINT_STRIDE_FLOATS ==> #[trigger] field_of(
                    slice@,
                    POINT_STRIDE_FLOATS as int,
                    q,
                    f,
                ) == field_of(
                    values@,
                    POINT_STRIDE_FLOATS as int,
                    sampled_index(source as int, points as int, q),
                    f,
                ),
        decreases points - slot,
    {
        proof {
            lemma_sample_bound(source as int, points as int, slot as int);
        }
        let place: u128 = slot as u128 * sample as u128;
        let index: usize = if place < source as u128 {
            place as usize
        } else {
            source - 1
        };
        assert(index == sampled_index(source as int, points as int, slot as int));
        let ghost before = slice@;
        let start: usize = index * POINT_STRIDE_FLOATS;
        let part = slice_subrange(values, start, start + POINT_STRIDE_FLOATS);
        slice.extend_from_slice(part);
        proof {
            assert(slice@ =~= before + part@);
            assert forall|q: int, f: int|
                0 <= q < slot + 1 && 0 <= f < POINT_STRIDE_FLOATS implies #[trigger] field_of(
                slice@,
                POINT_STRIDE_FLOATS as int,
                q,
                f,
            ) == field_of(
                values@,
                POINT_STRIDE_FLOATS as int,
                sampled_index(source as int, points as int, q),
                f,
            ) by {
                if q < slot {
                    assert(field_of(before, POINT_STRIDE_FLOATS as int, q, f) == field_of(
                        values@,
                        POINT_STRIDE_FLOATS as int,
                        sampled_index(source as int, points as int, q),
                        f,
                    ));
                }
            }
        }
        slot = slot + 1;
    }
    Some(slice)
}

/// Division rounded up.
proof fn lemma_ceiling(a: int, b: int)
    requires
        a >= 0,
        b > 0,
    ensures
        (a + b - 1) / b == a / b + (if a % b == 0 {
            0int
        } else {
            1
        }),
{
    lemma_fundamental_div_mod(a, b);
    let q = a / b;
    let r = a % b;
    if r == 0 {
        assert(a + b - 1 == q * b + (b - 1)) by (nonlinear_arith)
            requires
                a == b * q + r,
                r == 0,
        ;
        lemma_fundamental_div_mod_converse(a + b - 1, b, q, b - 1);
    } else {
        assert(a + b - 1 == (q + 1) * b + (r - 1)) by (nonlinear_arith)
            requires
                a == b * q + r,
        ;
        lemma_fundamental_div_mod_converse(a + b - 1, b, q + 1, r - 1);
    }
}

/// A slot times the sampling step stays within 128 bits.
proof fn lemma_sample_bound(source: int, points: int, slot: int)
    requires
        0 <= slot < points <= source <= usize::MAX,
    ensures
        0 <= slot * ((source + points - 1) / points) <= 0xffff_ffff_ffff_ffff
            * 0xffff_ffff_ffff_ffff,
{
    lemma_ceiling(source, points);
    let step = (source + points - 1) / points;
    lemma_fundamental_div_mod(source, points);
    assert(0 <= step <= source) by (nonlinear_arith)
        requires
            1 <= points <= source,
            source == points * (source / points) + source % points,
            0 <= source % points < points,
            step == source / points + (if source % points == 0 {
                0int
            } else {
                1
            }),
    ;
    assert(0 <= slot * step <= 0xffff_ffff_ffff_ffff * 0xffff_ffff_ffff_ffff) by (nonlinear_arith)
        requires
            0 <= slot <= 0xffff_ffff_ffff_ffff,
            0 <= step <= 0xffff_ffff_ffff_ffff,
    ;
}

/// The degree to render with: what the settings allow, all of it without settings, but not more
/// than the splats carry.
pub open spec fn rendered_degree(cap: Option<i32>, available: i32) -> int {
    let wanted = match cap {
        Some(cap) => clamped_degree(cap),
        None => 3,
    };
    least(wanted, available as int)
}

/// The degree to render with.
pub fn render_sh_degree(cap: Option<i32>, available: i32) -> (degree: i32)
    ensures
        degree == rendered_degree(cap, available),
{
    let wanted: i32 = match cap {
        Some(cap) => if cap < 0 {
            0
        } else if cap > 3 {
            3
        } else {
            cap
        },
        None => 3,
    };
    if wanted <= available {
        wanted
    } else {
        available
    }
}

/// What the size of every splat is multiplied with: what the settings say, one without settings,
/// but not less than the smallest scale.
pub fn render_scale(multiplier: Option<F32>) -> (scale: F32)
    ensures
        scale == (match multiplier {
            Some(multiplier) => multiplier,
            None => F32 { bits: ONE_BITS },
        }).larger(F32 { bits: MIN_SCALE_MULTIPLIER_BITS }),
{
    let wanted: F32 = match multiplier {
        Some(multiplier) => multiplier,
        None => F32 { bits: ONE_BITS },
    };
    wanted.max(F32 { bits: MIN_SCALE_MULTIPLIER_BITS })
}

/// The splats to render, with their size and the degree of their coefficients.
#[derive(Clone, Debug)]
pub struct RenderSlice {
    pub values: Vec<F32>,
    pub stride: usize,
    pub sh_degree: i32,
}

/// Where the splats to render come from.
#[derive(Clone, Copy, Debug)]
pub enum SliceSource<'a> {
    /// From the active chunks of a payload; from nowhere while that is only in a pack.
    Chunks {
        payload: Option<&'a Vec<F32>>,
        table: &'a ChunkTable,
        active: &'a Vec<(u32, u32)>,
        sh_degree_available: i32,
    },
    /// From a payload as a whole, if it can be read.
    Whole(Option<&'a Vec<F32>>),
}

/// The splats to render. Of a payload in chunks they are those of the active chunks, with the
/// coefficients that the settings allow. Of a whole payload they are as many as the settings allow,
/// without coefficients. Nothing comes back where there is nothing to render with.
pub fn render_slice(source: SliceSource<'_>, sh_degree: Option<i32>, max_splats: Option<i32>)
    -> (slice: Option<RenderSlice>)
    ensures
        match source {
            SliceSource::Chunks { payload, table, active, sh_degree_available } => match payload {
                Some(payload) => slice matches Some(slice) && {
                    &&& slice.values@ == gathered(
                        payload@,
                        table.entries@,
                        effective_stride(table.stride),
                        active@,
                        active@.len(),
                    )
                    &&& slice.stride == table.stride
                    &&& slice.sh_degree == rendered_degree(sh_degree, sh_degree_available)
                },
                None => slice is None,
            },
            SliceSource::Whole(values) => match (values, slice) {
                (Some(values), Some(slice)) => {
                    &&& is_decimated(values@, max_splats, Some(slice.values@))
                    &&& slice.stride == POINT_STRIDE_FLOATS
                    &&& slice.sh_degree == 0
                },
                (Some(values), None) => is_decimated(values@, max_splats, None),
                (None, _) => slice is None,
            },
        },
{
    match source {
        SliceSource::Chunks { payload, table, active, sh_degree_available } => match payload {
            Some(payload) => Some(
                RenderSlice {
                    values: gather_active(payload.as_slice(), table, active.as_slice()),
                    stride: table.stride,
                    sh_degree: render_sh_degree(sh_degree, sh_degree_available),
                },
            ),
            None => None,
        },
        SliceSource::Whole(values) => match values {
            Some(values) => match decimate_payload(values.as_slice(), max_splats) {
                Some(thinned) => Some(
                    RenderSlice { values: thinned, stride: POINT_STRIDE_FLOATS, sh_degree: 0 },
                ),
                None => None,
            },
            None => None,
        },
    }
}

/// What to do when the render set has to be built anew.
#[derive(Clone, Copy, Debug, PartialEq, Eq, Structural)]
pub enum RebuildAction {
    /// Render nothing.
    Clear,
    /// Build in the background; what is rendered stays until then.
    BuildAsync,
    /// Build at once.
    BuildNow,
}

/// What to do when the render set has to be built anew: nothing is rendered without an asset or
/// where rendering is off; at run time large selections and packs are built in the background.
pub open spec fn rebuild_choice(
    has_asset: bool,
    render_enabled: Option<bool>,
    editor: bool,
    streaming: Option<(bool, Seq<(u32, u32)>)>,
) -> RebuildAction {
    if !has_asset || render_enabled == Some(false) {
        RebuildAction::Clear
    } else {
        match streaming {
            Some((packed, active)) => if !editor && (packed || selected_total(active)
                > SYNC_BUILD_MAX_SPLATS) {
                RebuildAction::BuildAsync
            } else {
                RebuildAction::BuildNow
            },
            None => RebuildAction::BuildNow,
        }
    }
}

/// Whether a selection holds more splats than are built at once.
fn exceeds_sync_limit(active: &Vec<(u32, u32)>) -> (result: bool)
    ensures
        result == (selected_total(active@) > SYNC_BUILD_MAX_SPLATS),
{
    let mut total: u64 = 0;
    let mut i: usize = 0;
    assert(active@.take(0) =~= Seq::empty());
    while i < active.len()
        invariant
            i <= active@.len(),
            total == selected_total(active@.take(i as int)),
            total <= SYNC_BUILD_MAX_SPLATS,
        decreases active@.len() - i,
    {
        let count: u32 = active[i].1;
        total = total + count as u64;
        assert(active@.take(i + 1).drop_last() =~= active@.take(i as int));
        i = i + 1;
        if total > SYNC_BUILD_MAX_SPLATS as u64 {
            proof {
                lemma_total_grows(active@, i as int);
            }
            return true;
        }
    }
    assert(active@.take(active@.len() as int) =~= active@);
    false
}

/// A selection holds at least the splats of its first items.
proof fn lemma_total_grows(active: Seq<(u32, u32)>, i: int)
    requires
        0 <= i <= active.len(),
    ensures
        selected_total(active.take(i)) <= selected_total(active),
    decreases active.len(),
{
    if i < active.len() {
        lemma_total_grows(active.drop_last(), i);
        assert(active.drop_last().take(i) =~= active.take(i));
    } else {
        assert(active.take(i) =~= active);
    }
}

/// What to do when the render set has to be built anew. `streaming` says whether the splats come
/// from a pack and what is selected, where the asset is chunked.
pub fn rebuild_action(
    has_asset: bool,
    render_enabled: Option<bool>,
    editor: bool,
    streaming: Option<(bool, &Vec<(u32, u32)>)>,
) -> (action: RebuildAction)
    ensures
        action == rebuild_choice(
            has_asset,
            render_enabled,
            editor,
            match streaming {
                Some((packed, active)) => Some((packed, active@)),
                None => None,
            },
        ),
{
    let enabled: bool = match render_enabled {
        Some(enabled) => enabled,
        None => true,
    };
    if !has_asset || !enabled {
        return RebuildAction::Clear;
    }
    if let Some((packed, active)) = streaming {
        if !editor && (packed || exceeds_sync_limit(active)) {
            return RebuildAction::BuildAsync;
        }
    }
    RebuildAction::BuildNow
}

/// A draw: the handles of its mesh and of its instance.
#[derive(Clone, Copy, Debug, PartialEq, Eq, Structural)]
pub struct SplatDraw {
    pub mesh_rid: u64,
    pub instance_rid: u64,
    pub splat_count: i32,
}

/// The draws of a node: the current one, and the one that stays visible until the current one is
/// sorted.
#[derive(Clone, Copy, Debug, PartialEq, Eq, Structural)]
pub struct DrawSlots {
    pub current: Option<SplatDraw>,
    pub transition: Option<SplatDraw>,
}

/// A draw that may be missing, as a sequence.
pub open spec fn draw_seq(draw: Option<SplatDraw>) -> Seq<SplatDraw> {
    match draw {
        Some(draw) => seq![draw],
        None => Seq::empty(),
    }
}

/// The draws that a node holds.
pub open spec fn held(slots: DrawSlots) -> Multiset<SplatDraw> {
    draw_seq(slots.current).to_multiset().add(draw_seq(slots.transition).to_multiset())
}

impl DrawSlots {
    /// Gives up all draws. What comes back has to be freed.
    pub fn clear(&mut self) -> (freed: Vec<SplatDraw>)
        ensures
            final(self).current is None,
            final(self).transition is None,
            freed@ == draw_seq(old(self).current) + draw_seq(old(self).transition),
            held(*final(self)).add(freed@.to_multiset()) == held(*old(self)),
    {
        broadcast use vstd::seq_lib::group_to_multiset_ensures;
        let mut freed: Vec<SplatDraw> = Vec::new();
        if let Some(draw) = self.current {
            freed.push(draw);
        }
        if let Some(draw) = self.transition {
            freed.push(draw);
        }
        self.current = None;
        self.transition = None;
        assert(freed@ =~= draw_seq(old(self).current) + draw_seq(old(self).transition));
        proof {
            lemma_concat_multiset(draw_seq(old(self).current), draw_seq(old(self).transition));
            assert(held(*self).add(freed@.to_multiset()) =~= held(*old(self)));
        }
        freed
    }

    /// Makes `draw` the current one. Where the old one is to stay visible it becomes the one that
    /// is replaced later, unless there is one already. What comes back has to be freed.
    pub fn replace(&mut self, draw: SplatDraw, keep_old_visible: bool) -> (freed: Vec<SplatDraw>)
        ensures
            final(self).current == Some(draw),
            final(self).transition == (if keep_old_visible {
                if old(self).transition is None {
                    old(self).current
                } else {
                    old(self).transition
                }
            } else {
                None
            }),
            freed@ == (if !keep_old_visible {
                draw_seq(old(self).current) + draw_seq(old(self).transition)
            } else if old(self).transition is None {
                Seq::empty()
            } else {
                draw_seq(old(self).current)
            }),
            held(*final(self)).add(freed@.to_multiset()) == held(*old(self)).insert(draw),
    {
        broadcast use vstd::seq_lib::group_to_multiset_ensures;
        let mut freed: Vec<SplatDraw> = Vec::new();
        if keep_old_visible {
            if self.transition.is_none() {
                self.transition = self.current;
            } else if let Some(old_draw) = self.current {
                freed.push(old_draw);
            }
        } else {
            freed = self.clear();
        }
        self.current = Some(draw);
        proof {
            lemma_concat_multiset(draw_seq(old(self).current), draw_seq(old(self).transition));
            assert(draw_seq(Some(draw)).to_multiset() =~= Multiset::empty().insert(draw)) by {
                assert(draw_seq(Some(draw)) =~= Seq::empty().push(draw));
            }
            if keep_old_visible && old(self).transition is Some {
                assert(freed@ =~= draw_seq(old(self).current));
            }
            assert(held(*self).add(freed@.to_multiset()) =~= held(*old(self)).insert(draw));
        }
        freed
    }

    /// The current draw is ready to be seen: the one that stood in for it is given up. Without a
    /// current draw nothing happens.
    pub fn finish_transition(&mut self) -> (freed: Vec<SplatDraw>)
        ensures
            final(self).current == old(self).current,
            final(self).transition == (if old(self).current is None {
                old(self).transition
            } else {
                None
            }),
            freed@ == (if old(self).current is None {
                Seq::empty()
            } else {
                draw_seq(old(self).transition)
            }),
            held(*final(self)).add(freed@.to_multiset()) == held(*old(self)),
    {
        broadcast use vstd::seq_lib::group_to_multiset_ensures;
        let mut freed: Vec<SplatDraw> = Vec::new();
        if self.current.is_some() {
            if let Some(draw) = self.transition {
                freed.push(draw);
            }
            self.transition = None;
            assert(freed@ =~= draw_seq(old(self).transition));
        }
        assert(held(*self).add(freed@.to_multiset()) =~= held(*old(self)));
        freed
    }
}

/// Two runs one after the other hold what both hold.
proof fn lemma_concat_multiset(a: Seq<SplatDraw>, b: Seq<SplatDraw>)
    ensures
        (a + b).to_multiset() == a.to_multiset().add(b.to_multiset()),
{
    vstd::seq_lib::lemma_multiset_commutative(a, b);
}

/// How a finished render set takes over.
#[derive(Clone, Copy, Debug, PartialEq, Eq, Structural)]
pub struct ApplyPlan {
    /// The old draw stays visible until the new one is sorted.
    pub transition_to_sorted: bool,
    /// The new draw is visible from the start.
    pub visible: bool,
    /// The sort of the old draw is kept for as long as the old draw is.
    pub preserve_sort: bool,
    pub vertex_count: i32,
}

/// How a finished render set takes over: with a draw already there, and outside the editor, the
/// new one waits until it is sorted.
pub open spec fn apply_choice(
    slots: DrawSlots,
    editor: bool,
    splat_visible: bool,
    splat_count: i32,
) -> ApplyPlan {
    let waits = slots.current is Some && !editor;
    ApplyPlan {
        transition_to_sorted: waits,
        visible: splat_visible && !waits,
        preserve_sort: waits && slots.transition is None,
        vertex_count: if 6 * splat_count > i32::MAX {
            i32::MAX
        } else if 6 * splat_count < i32::MIN {
            i32::MIN
        } else {
            (6 * splat_count) as i32
        },
    }
}

/// How a finished render set takes over.
pub fn plan_apply(slots: &DrawSlots, editor: bool, splat_visible: bool, splat_count: i32) -> (plan:
    ApplyPlan)
    ensures
        plan == apply_choice(*slots, editor, splat_visible, splat_count),
{
    let waits: bool = slots.current.is_some() && !editor;
    let vertices: i64 = 6 * (splat_count as i64);
    ApplyPlan {
        transition_to_sorted: waits,
        visible: splat_visible && !waits,
        preserve_sort: waits && slots.transition.is_none(),
        vertex_count: if vertices > i32::MAX as i64 {
            i32::MAX
        } else if vertices < i32::MIN as i64 {
            i32::MIN
        } else {
            vertices as i32
        },
    }
}

} // verus!
