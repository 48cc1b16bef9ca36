//! What is rendered: every splat is found again where the shader looks for it.

use crate::bytes::{lemma_word_at_words, word_at};
use crate::extents::{highest, lowest};
use crate::floats::F32;
use crate::gsplat_pack::layout::effective_stride;
use crate::gsplat_pack::selection::selected_total;
use crate::gsplat_pack::{record_size, sh_count, stride_degree, QuantizationRanges};
use crate::laws::chunks::width_of;
use crate::laws::numbers::{columns_are_enclosed, extremes_enclose_and_are_attained, is_among};
use crate::node::render_build::{
    apply_choice, capacity, center_axis, clamped_degree, half_at, holds_records, holds_splats,
    is_decimated, packed_points, packed_records, rebuild_choice, record_texels, rendered_degree,
    sampled_index, sh_texel_count, texel_value, texels_per_splat, texture_rows, texture_values,
    DrawSlots, ImageFormat, PreparedSplat, RawRenderData, RebuildAction,
};
use crate::words::{float_bytes, float_words};
use vstd::arithmetic::div_mod::{lemma_fundamental_div_mod, lemma_fundamental_div_mod_converse};
use vstd::prelude::*;

verus! {

/// Three channels for each of the basis functions of the degrees from one on.
pub open spec fn coefficients_up_to(degree: int) -> int {
    3 * ((degree + 1) * (degree + 1) - 1)
}

/// A splat carries three coefficients for every basis function of its degrees; a stride carries the
/// degrees whose coefficients fit; a record has a byte for each, and ends on a whole texel.
pub proof fn degrees_count_their_coefficients(degree: int, stride: int)
    requires
        0 <= degree <= 3,
    ensures
        sh_count(degree) == coefficients_up_to(degree),
        degree <= stride_degree(stride) <==> degree == 0 || 18 + coefficients_up_to(degree)
            <= stride,
        0 <= stride_degree(stride) <= 3,
        record_size(degree) % 4 == 0,
        24 + coefficients_up_to(degree) <= record_size(degree) < 24 + coefficients_up_to(degree) + 4,
        4 * sh_texel_count(degree) >= coefficients_up_to(degree),
        4 * sh_texel_count(degree) < coefficients_up_to(degree) + 4,
{
    assert((degree + 1) * (degree + 1) == (if degree == 0 {
        1
    } else if degree == 1 {
        4
    } else if degree == 2 {
        9
    } else {
        16int
    })) by (nonlinear_arith)
        requires
            0 <= degree <= 3,
    ;
}

/// A degree is moved into the range from zero to three, and stays where it is within it.
pub proof fn degrees_stay_in_range(degree: i32)
    ensures
        0 <= clamped_degree(degree) <= 3,
        0 <= degree <= 3 ==> clamped_degree(degree) == degree,
        degree < 0 ==> clamped_degree(degree) == 0,
        degree > 3 ==> clamped_degree(degree) == 3,
{
}

/// The bits of number `i` of a data texture.
pub open spec fn texture_bits(raw: RawRenderData, i: int) -> u32 {
    word_at(raw.data_bytes@, 4 * i)
}

proof fn lemma_texture_number(raw: RawRenderData, values: Seq<F32>, i: int)
    requires
        raw.data_bytes@ == float_bytes(values),
        0 <= i < values.len(),
    ensures
        texture_bits(raw, i) == values[i].bits,
{
    lemma_word_at_words(float_words(values), i);
}

proof fn lemma_capacity(points: int, texels: int)
    requires
        0 <= points,
        1 <= texels,
    ensures
        points <= capacity(texels) <==> points * texels <= 4096 * 16384,
        capacity(texels) >= 0,
{
    let most = 4096 * 16384int;
    lemma_fundamental_div_mod(most, texels);
    let q = most / texels;
    assert(points <= q ==> points * texels <= most) by (nonlinear_arith)
        requires
            most == texels * q + most % texels,
            0 <= most % texels,
            texels >= 1,
            points >= 0,
    ;
    assert(points > q ==> points * texels > most) by (nonlinear_arith)
        requires
            most == texels * q + most % texels,
            most % texels < texels,
            texels >= 1,
            points >= 0,
    ;
    assert(q >= 0) by (nonlinear_arith)
        requires
            q == most / texels,
            texels >= 1,
            most >= 0,
    ;
}

/// Rows hold all texels, and no row is without one; there is always a row.
pub proof fn rows_hold_all_texels(texels: int)
    requires
        texels >= 0,
    ensures
        texture_rows(texels) >= 1,
        texels <= texture_rows(texels) * 4096,
        texels > 0 ==> (texture_rows(texels) - 1) * 4096 < texels,
{
}

/// As many splats are packed as there are whole ones and as the texture holds.
pub proof fn splats_are_packed_as_far_as_they_fit(len: int, stride: int, degree: int)
    requires
        len >= 0,
        stride > 0,
        0 <= degree <= 3,
    ensures
        ({
            let points = packed_points(len, stride, degree);
            let texels = 4 + (coefficients_up_to(degree) + 3) / 4;
            &&& points >= 0
            &&& points * stride <= len
            &&& points * texels <= 4096 * 16384
            &&& (points + 1) * stride > len || (points + 1) * texels > 4096 * 16384
        }),
{
    let points = packed_points(len, stride, degree);
    let texels = texels_per_splat(degree);
    degrees_count_their_coefficients(degree, 0);
    lemma_capacity(points, texels);
    lemma_capacity(points + 1, texels);
    lemma_fundamental_div_mod(len, stride);
    let q = len / stride;
    assert(q >= 0) by (nonlinear_arith)
        requires
            q == len / stride,
            len >= 0,
            stride > 0,
    ;
    assert(points * stride <= len) by (nonlinear_arith)
        requires
            points <= q,
            len == stride * q + len % stride,
            0 <= len % stride,
            stride > 0,
    ;
    assert(points == q ==> (points + 1) * stride > len) by (nonlinear_arith)
        requires
            len == stride * q + len % stride,
            len % stride < stride,
    ;
}

/// Reading the texels of a slot the way the shader does gives the splat back: center, scale,
/// rotation, color, and every coefficient, each component in its place.
pub proof fn texels_give_the_splat_back(
    raw: RawRenderData,
    slice: Seq<F32>,
    stride: usize,
    sh_degree: i32,
    prepared: Seq<PreparedSplat>,
    slot: int,
    k: int,
)
    requires
        holds_splats(raw, slice, stride, sh_degree, prepared),
        0 <= slot < raw.splat_count,
        0 <= k < coefficients_up_to(raw.sh_degree as int),
    ensures
        ({
            let base = 4 * (slot * (4 + (coefficients_up_to(raw.sh_degree as int) + 3) / 4));
            texture_bits(raw, base + 16 + k) == slice[slot * width_of(stride) + 18 + k].bits
        }),
{
    degrees_count_their_coefficients(raw.sh_degree as int, 0);
    lemma_slot_number(raw, slice, stride, sh_degree, prepared, slot, 16 + k);
}

/// Reading the four core texels of a slot the way the shader does gives the splat back.
pub proof fn core_texels_give_the_splat_back(
    raw: RawRenderData,
    slice: Seq<F32>,
    stride: usize,
    sh_degree: i32,
    prepared: Seq<PreparedSplat>,
    slot: int,
)
    requires
        holds_splats(raw, slice, stride, sh_degree, prepared),
        0 <= slot < raw.splat_count,
    ensures
        ({
            let base = 4 * (slot * (4 + (coefficients_up_to(raw.sh_degree as int) + 3) / 4));
            let start = slot * width_of(stride);
            &&& texture_bits(raw, base) == slice[start].bits
            &&& texture_bits(raw, base + 1) == slice[start + 1].bits
            &&& texture_bits(raw, base + 2) == slice[start + 2].bits
            &&& texture_bits(raw, base + 3) == prepared[slot].scale[0].bits
            &&& texture_bits(raw, base + 4) == prepared[slot].scale[1].bits
            &&& texture_bits(raw, base + 5) == prepared[slot].scale[2].bits
            &&& texture_bits(raw, base + 6) == prepared[slot].rotation[0].bits
            &&& texture_bits(raw, base + 7) == prepared[slot].rotation[1].bits
            &&& texture_bits(raw, base + 8) == prepared[slot].rotation[2].bits
            &&& texture_bits(raw, base + 9) == prepared[slot].rotation[3].bits
            &&& texture_bits(raw, base + 10) == 0 && texture_bits(raw, base + 11) == 0
            &&& texture_bits(raw, base + 12) == slice[start + 14].bits
            &&& texture_bits(raw, base + 13) == slice[start + 15].bits
            &&& texture_bits(raw, base + 14) == slice[start + 16].bits
            &&& texture_bits(raw, base + 15) == slice[start + 17].bits
        }),
{
    lemma_slot_number(raw, slice, stride, sh_degree, prepared, slot, 0);
    lemma_slot_number(raw, slice, stride, sh_degree, prepared, slot, 1);
    lemma_slot_number(raw, slice, stride, sh_degree, prepared, slot, 2);
    lemma_slot_number(raw, slice, stride, sh_degree, prepared, slot, 3);
    lemma_slot_number(raw, slice, stride, sh_degree, prepared, slot, 4);
    lemma_slot_number(raw, slice, stride, sh_degree, prepared, slot, 5);
    lemma_slot_number(raw, slice, stride, sh_degree, prepared, slot, 6);
    lemma_slot_number(raw, slice, stride, sh_degree, prepared, slot, 7);
    lemma_slot_number(raw, slice, stride, sh_degree, prepared, slot, 8);
    lemma_slot_number(raw, slice, stride, sh_degree, prepared, slot, 9);
    lemma_slot_number(raw, slice, stride, sh_degree, prepared, slot, 10);
    lemma_slot_number(raw, slice, stride, sh_degree, prepared, slot, 11);
    lemma_slot_number(raw, slice, stride, sh_degree, prepared, slot, 12);
    lemma_slot_number(raw, slice, stride, sh_degree, prepared, slot, 13);
    lemma_slot_number(raw, slice, stride, sh_degree, prepared, slot, 14);
    lemma_slot_number(raw, slice, stride, sh_degree, prepared, slot, 15);
}

proof fn lemma_slot(
    raw: RawRenderData,
    slice: Seq<F32>,
    stride: usize,
    sh_degree: i32,
    prepared: Seq<PreparedSplat>,
    slot: int,
) -> (found: (int, Seq<F32>))
    requires
        holds_splats(raw, slice, stride, sh_degree, prepared),
        0 <= slot < raw.splat_count,
    ensures
        ({
            let per_splat = 4 * texels_per_splat(raw.sh_degree as int);
            &&& found.0 == slot * per_splat
            &&& raw.data_bytes@ == float_bytes(found.1)
            &&& found.0 + per_splat <= found.1.len()
            &&& 0 <= found.0
            &&& per_splat >= 16 + sh_count(raw.sh_degree as int)
            &&& 0 <= raw.sh_degree <= 3
        }),
{
    let width = effective_stride(stride);
    let degree = clamped_degree(sh_degree);
    let points = packed_points(slice.len() as int, width, degree);
    let texels = texels_per_splat(degree);
    let rows = texture_rows(points * texels);
    let values = texture_values(slice, width, prepared, degree, points, 4 * (rows * 4096));
    degrees_count_their_coefficients(degree, 0);
    lemma_slots_fit(slot, points, texels);
    (slot * (4 * texels), values)
}

proof fn lemma_slots_fit(slot: int, points: int, texels: int)
    requires
        0 <= slot < points,
        texels >= 1,
    ensures
        0 <= slot * (4 * texels),
        slot * (4 * texels) == 4 * (slot * texels),
        slot * (4 * texels) + 4 * texels <= 4 * (texture_rows(points * texels) * 4096),
{
    assert(0 <= slot * (4 * texels) && slot * (4 * texels) == 4 * (slot * texels) && slot * (4
        * texels) + 4 * texels <= 4 * (points * texels) && points * texels >= 0)
        by (nonlinear_arith)
        requires
            0 <= slot < points,
            texels >= 1,
    ;
    rows_hold_all_texels(points * texels);
}

proof fn lemma_slot_number(
    raw: RawRenderData,
    slice: Seq<F32>,
    stride: usize,
    sh_degree: i32,
    prepared: Seq<PreparedSplat>,
    slot: int,
    k: int,
)
    requires
        holds_splats(raw, slice, stride, sh_degree, prepared),
        0 <= slot < raw.splat_count,
        0 <= k < 16 + sh_count(raw.sh_degree as int),
    ensures
        texture_bits(
            raw,
            4 * (slot * (4 + (coefficients_up_to(raw.sh_degree as int) + 3) / 4)) + k,
        ) == texel_value(
            slice,
            width_of(stride),
            prepared,
            sh_count(raw.sh_degree as int),
            slot,
            k,
        ).bits,
{
    let width = effective_stride(stride);
    let degree = clamped_degree(sh_degree);
    let points = packed_points(slice.len() as int, width, degree);
    let texels = texels_per_splat(degree);
    let (base, values) = lemma_slot(raw, slice, stride, sh_degree, prepared, slot);
    let rows = texture_rows(points * texels);
    let wanted = texture_values(slice, width, prepared, degree, points, 4 * (rows * 4096));
    degrees_count_their_coefficients(degree, 0);
    lemma_slots_fit(slot, points, texels);
    lemma_fundamental_div_mod_converse(slot * (4 * texels) + k, 4 * texels, slot, k);
    lemma_texture_number(raw, wanted, slot * (4 * texels) + k);
}

/// The texture is as wide as the shader takes it to be, is no taller than a device allows, has room
/// for every splat, and is made of whole texels of four numbers.
pub proof fn texture_has_room_for_every_splat(
    raw: RawRenderData,
    slice: Seq<F32>,
    stride: usize,
    sh_degree: i32,
    prepared: Seq<PreparedSplat>,
)
    requires
        holds_splats(raw, slice, stride, sh_degree, prepared),
    ensures
        ({
            let texels = 4 + (coefficients_up_to(raw.sh_degree as int) + 3) / 4;
            &&& raw.sh_degree == clamped_degree(sh_degree)
            &&& raw.tex_width == 4096
            &&& 1 <= raw.tex_height <= 16384
            &&& raw.splat_count * texels <= raw.tex_width * raw.tex_height
            &&& raw.data_bytes@.len() == 16 * (raw.tex_width * raw.tex_height)
            &&& raw.data_encoding == 0
            &&& raw.image_format == ImageFormat::Rgbaf
            &&& raw.packed_record_bytes == 0
            &&& forall|k: int|
                #![trigger raw.ranges.position_min[k]]
                0 <= k < 3 ==> raw.ranges.position_min[k].bits == 0
                    && raw.ranges.position_max[k].bits == 0x3f80_0000
                    && raw.ranges.scale_min[k].bits == 0 && raw.ranges.scale_max[k].bits
                    == 0x3f80_0000
            &&& raw.ranges.sh_min.bits == 0xbf80_0000 && raw.ranges.sh_max.bits == 0x3f80_0000
            &&& raw.splat_count * width_of(stride) <= slice.len()
            &&& (raw.splat_count + 1) * width_of(stride) > slice.len() || (raw.splat_count + 1)
                * texels > 4096 * 16384
        }),
{
    let width = effective_stride(stride);
    let degree = clamped_degree(sh_degree);
    let points = packed_points(slice.len() as int, width, degree);
    let texels = texels_per_splat(degree);
    degrees_count_their_coefficients(degree, 0);
    splats_are_packed_as_far_as_they_fit(slice.len() as int, width, degree);
    assert(points * texels >= 0) by (nonlinear_arith)
        requires
            points >= 0,
            texels >= 0,
    ;
    rows_hold_all_texels(points * texels);
    let rows = texture_rows(points * texels);
    assert(rows <= 16384);
    assert forall|k: int|
        #![trigger raw.ranges.position_min[k]]
        0 <= k < 3 implies raw.ranges.position_min[k].bits == 0 && raw.ranges.position_max[k].bits
        == 0x3f80_0000 && raw.ranges.scale_min[k].bits == 0 && raw.ranges.scale_max[k].bits
        == 0x3f80_0000 by {
        assert(raw.ranges.position_min@[k].bits == 0);
        assert(raw.ranges.position_max@[k].bits == 0x3f80_0000);
        assert(raw.ranges.scale_min@[k].bits == 0);
        assert(raw.ranges.scale_max@[k].bits == 0x3f80_0000);
    }
}

/// The centers that are sorted are those of the splats, in order, each followed by one; the bounds
/// enclose them, and no more than they take up.
pub proof fn sorted_centers_are_those_rendered(
    raw: RawRenderData,
    slice: Seq<F32>,
    stride: usize,
    sh_degree: i32,
    prepared: Seq<PreparedSplat>,
    slot: int,
    k: int,
)
    requires
        holds_splats(raw, slice, stride, sh_degree, prepared),
        0 <= slot < raw.splat_count,
        0 <= k < 3,
    ensures
        ({
            let width = width_of(stride);
            &&& raw.positions@.len() == 4 * raw.splat_count
            &&& raw.positions@[4 * slot + k] == slice[slot * width + k]
            &&& raw.positions@[4 * slot + 3].bits == 0x3f80_0000
            &&& !slice[slot * width + k].nan() ==> raw.center_min[k].at_most(
                slice[slot * width + k],
            ) && slice[slot * width + k].at_most(raw.center_max[k])
            &&& !slice[slot * width + k].nan() ==> exists|s: int|
                0 <= s < raw.splat_count && #[trigger] slice[s * width + k] == raw.center_min[k]
            &&& !slice[slot * width + k].nan() ==> exists|s: int|
                0 <= s < raw.splat_count && #[trigger] slice[s * width + k] == raw.center_max[k]
        }),
{
    columns_are_enclosed(slice, width_of(stride), k, 0, raw.splat_count as int);
    assert((4 * slot + k) / 4 == slot && (4 * slot + k) % 4 == k);
    assert((4 * slot + 3) / 4 == slot && (4 * slot + 3) % 4 == 3);
}

/// Every record is found again as it was, from the slot on that the shader computes; the texture
/// has room for all of them.
pub proof fn texels_give_the_record_back(
    raw: RawRenderData,
    records: Seq<u8>,
    record_bytes: usize,
    sh_degree: i32,
    centers: Seq<[F32; 3]>,
    ranges: QuantizationRanges,
    slot: int,
    b: int,
)
    requires
        holds_records(raw, records, record_bytes, sh_degree, centers, ranges),
        0 <= slot < raw.splat_count,
        0 <= b < record_bytes,
        record_bytes <= i32::MAX,
    ensures
        raw.data_bytes@[slot * raw.packed_record_bytes + b] == records[slot * record_bytes + b],
        raw.splat_count * raw.packed_record_bytes <= raw.data_bytes@.len(),
        raw.data_bytes@.len() == 4 * (raw.tex_width * raw.tex_height),
        raw.tex_width == 4096,
        1 <= raw.tex_height <= 16384,
        raw.ranges == ranges,
        raw.data_encoding == 1,
        raw.image_format == ImageFormat::Rgba8,
        raw.packed_record_bytes == record_bytes,
        raw.sh_degree == clamped_degree(sh_degree),
        raw.splat_count * record_bytes <= records.len(),
        (raw.splat_count + 1) * record_bytes > records.len() || (raw.splat_count + 1) * ((
        record_bytes + 3) / 4) > 4096 * 16384,
{
    let points = packed_records(records.len() as int, record_bytes as int);
    let texels = record_texels(record_bytes as int);
    let size = record_bytes as int;
    lemma_capacity(points, texels);
    lemma_capacity(points + 1, texels);
    lemma_fundamental_div_mod(records.len() as int, size);
    let q = records.len() as int / size;
    assert(points * size <= records.len()) by (nonlinear_arith)
        requires
            points <= q,
            records.len() as int == size * q + records.len() as int % size,
            0 <= records.len() as int % size,
            size > 0,
    ;
    assert(points == q ==> (points + 1) * size > records.len()) by (nonlinear_arith)
        requires
            records.len() as int == size * q + records.len() as int % size,
            records.len() as int % size < size,
    ;
    assert(points * texels >= 0 && points * size <= 4 * (points * texels)) by (nonlinear_arith)
        requires
            points >= 0,
            texels >= 0,
            size <= 4 * texels,
    ;
    rows_hold_all_texels(points * texels);
    assert(0 <= slot * size && slot * size + size <= points * size) by (nonlinear_arith)
        requires
            0 <= slot < points,
            size > 0,
    ;
}

/// The centers of records that are sorted are the given ones, in order; the bounds enclose them,
/// and no more than they take up.
pub proof fn sorted_record_centers_are_those_given(
    raw: RawRenderData,
    records: Seq<u8>,
    record_bytes: usize,
    sh_degree: i32,
    centers: Seq<[F32; 3]>,
    ranges: QuantizationRanges,
    slot: int,
    k: int,
)
    requires
        holds_records(raw, records, record_bytes, sh_degree, centers, ranges),
        0 <= slot < raw.splat_count,
        0 <= k < 3,
    ensures
        raw.positions@.len() == 4 * raw.splat_count,
        raw.positions@[4 * slot + k] == centers[slot][k],
        raw.positions@[4 * slot + 3].bits == 0x3f80_0000,
        !centers[slot][k].nan() ==> raw.center_min[k].at_most(centers[slot][k])
            && centers[slot][k].at_most(raw.center_max[k]),
        !centers[slot][k].nan() ==> exists|s: int|
            0 <= s < raw.splat_count && (#[trigger] centers[s])[k] == raw.center_min[k],
        !centers[slot][k].nan() ==> exists|s: int|
            0 <= s < raw.splat_count && (#[trigger] centers[s])[k] == raw.center_max[k],
{
    let points = raw.splat_count as int;
    let axis = center_axis(centers, k, points);
    extremes_enclose_and_are_attained(axis);
    assert((4 * slot + k) / 4 == slot && (4 * slot + k) % 4 == k);
    assert((4 * slot + 3) / 4 == slot && (4 * slot + 3) % 4 == 3);
    assert(axis[slot] == centers[slot][k]);
    assert(raw.center_min[k] == lowest(axis) && raw.center_max[k] == highest(axis)) by {
        assert(k == 0 || k == 1 || k == 2);
    }
    if !centers[slot][k].nan() {
        if is_among(lowest(axis), axis) {
            let s = choose|s: int| 0 <= s < axis.len() && #[trigger] axis[s] == lowest(axis);
            assert(centers[s][k] == lowest(axis));
        } else {
            assert(axis[slot] == lowest(axis));
            assert(centers[slot][k] == lowest(axis));
        }
        if is_among(highest(axis), axis) {
            let s = choose|s: int| 0 <= s < axis.len() && #[trigger] axis[s] == highest(axis);
            assert(centers[s][k] == highest(axis));
        } else {
            assert(axis[slot] == highest(axis));
            assert(centers[slot][k] == highest(axis));
        }
    }
}

/// A 16-bit integer starts with its lower byte.
pub proof fn halves_start_with_their_lower_byte(bytes: Seq<u8>, offset: int)
    ensures
        half_at(bytes, offset) % 256 == bytes[offset],
        half_at(bytes, offset) / 256 == bytes[offset + 1],
{
}

/// Thinning out keeps as many splats as allowed and there are, spread over the payload with the
/// shortest even step that does not run past its end before the last slot needs it.
pub proof fn thinning_is_even(source: int, points: int, slot: int)
    requires
        0 < points <= source,
        0 <= slot < points,
    ensures
        0 <= sampled_index(source, points, slot) < source,
        sampled_index(source, points, 0) == 0,
        points == source ==> sampled_index(source, points, slot) == slot,
        exists|step: int|
            #![trigger step * points]
            step >= 1 && (step - 1) * points < source <= step * points && (slot * step < source
                ==> sampled_index(source, points, slot) == slot * step) && (slot * step >= source
                ==> sampled_index(source, points, slot) == source - 1),
{
    let step = (source + points - 1) / points;
    lemma_fundamental_div_mod(source + points - 1, points);
    assert((step - 1) * points < source <= step * points && step >= 1) by (nonlinear_arith)
        requires
            source + points - 1 == points * step + (source + points - 1) % points,
            0 <= (source + points - 1) % points < points,
            points >= 1,
            source >= 1,
    ;
    assert(slot * step >= 0) by (nonlinear_arith)
        requires
            slot >= 0,
            step >= 1,
    ;
    assert(0 * step == 0);
    if points == source {
        assert(step == 1) by (nonlinear_arith)
            requires
                (step - 1) * points < points,
                step >= 1,
                points >= 1,
        ;
    }
    assert(step * points >= source);
}

/// A thinned-out payload holds whole splats of the payload: as many as are allowed and there are.
pub proof fn thinning_keeps_whole_splats(
    values: Seq<F32>,
    max_splats: Option<i32>,
    slice: Seq<F32>,
    slot: int,
    f: int,
)
    requires
        is_decimated(values, max_splats, Some(slice)),
        0 <= slot,
        slot * 18 + 18 <= slice.len(),
        0 <= f < 18,
    ensures
        slice.len() % 18 == 0,
        slice.len() <= values.len(),
        max_splats matches Some(limit) ==> slice.len() as int / 18 <= limit,
        values.len() <= usize::MAX ==> max_splats is None ==> slice.len() as int / 18 == values.len() as int / 18,
        max_splats matches Some(limit) ==> slice.len() as int / 18 == limit || slice.len() as int
            / 18 == values.len() as int / 18,
        slice[slot * 18 + f] == values[sampled_index(
            values.len() as int / 18,
            slice.len() as int / 18,
            slot,
        ) * 18 + f],
{
    let source = values.len() as int / 18;
    let points = slice.len() as int / 18;
    assert(crate::chunking::field_of(slice, 18, slot, f) == crate::chunking::field_of(
        values,
        18,
        sampled_index(source, points, slot),
        f,
    ));
}

/// The degree that is rendered is the highest that both the settings and the splats allow.
pub proof fn rendered_degree_is_the_highest_allowed(cap: Option<i32>, available: i32)
    requires
        0 <= available,
    ensures
        0 <= rendered_degree(cap, available) <= available,
        rendered_degree(cap, available) <= 3,
        cap matches Some(cap) ==> cap >= 0 ==> rendered_degree(Some(cap), available) <= cap,
        cap matches Some(cap) ==> cap >= available && available <= 3 ==> rendered_degree(
            Some(cap),
            available,
        ) == available,
        cap matches Some(cap) ==> 0 <= cap <= available && cap <= 3 ==> rendered_degree(
            Some(cap),
            available,
        ) == cap,
        cap matches Some(cap) ==> cap < 0 ==> rendered_degree(Some(cap), available) == 0,
        cap is None && available <= 3 ==> rendered_degree(cap, available) == available,
        cap is None && available > 3 ==> rendered_degree(cap, available) == 3,
{
}

/// Nothing is rendered without an asset or where rendering is off. A selection is built in the
/// background outside the editor where it comes from a pack or is large.
pub proof fn rebuilding_keeps_large_work_in_the_background(
    render_enabled: Option<bool>,
    packed: bool,
    active: Seq<(u32, u32)>,
)
    ensures
        rebuild_choice(false, render_enabled, true, None) == RebuildAction::Clear,
        rebuild_choice(false, render_enabled, false, Some((packed, active)))
            == RebuildAction::Clear,
        rebuild_choice(true, Some(false), false, Some((packed, active))) == RebuildAction::Clear,
        rebuild_choice(true, Some(false), true, None) == RebuildAction::Clear,
        render_enabled != Some(false) ==> {
            &&& rebuild_choice(true, render_enabled, true, Some((packed, active)))
                == RebuildAction::BuildNow
            &&& rebuild_choice(true, render_enabled, false, None) == RebuildAction::BuildNow
            &&& rebuild_choice(true, render_enabled, true, None) == RebuildAction::BuildNow
            &&& rebuild_choice(true, render_enabled, false, Some((true, active)))
                == RebuildAction::BuildAsync
            &&& selected_total(active) > 500_000 ==> rebuild_choice(
                true,
                render_enabled,
                false,
                Some((packed, active)),
            ) == RebuildAction::BuildAsync
            &&& selected_total(active) <= 500_000 ==> rebuild_choice(
                true,
                render_enabled,
                false,
                Some((false, active)),
            ) == RebuildAction::BuildNow
        },
{
}

/// A new draw has six vertices for every splat. It is seen at once where there is none to stand in
/// for it, or in the editor, and waits for its order otherwise; the sort of what stands in is kept
/// where it is the one that is seen.
pub proof fn new_draws_wait_for_their_order(
    slots: DrawSlots,
    editor: bool,
    splat_visible: bool,
    splat_count: i32,
)
    ensures
        ({
            let plan = apply_choice(slots, editor, splat_visible, splat_count);
            &&& 0 <= splat_count <= 357_913_941 ==> plan.vertex_count == 6 * splat_count
            &&& splat_count > 357_913_941 ==> plan.vertex_count == i32::MAX
            &&& plan.visible ==> splat_visible && !plan.transition_to_sorted
            &&& splat_visible ==> plan.visible != plan.transition_to_sorted
            &&& editor ==> !plan.transition_to_sorted
            &&& slots.current is None ==> !plan.transition_to_sorted
            &&& slots.current is Some && !editor ==> plan.transition_to_sorted
            &&& plan.preserve_sort <==> plan.transition_to_sorted && slots.transition is None
        }),
{
}

} // verus!
