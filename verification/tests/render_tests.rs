use godot_gsplat::chunking::{ChunkEntry, ChunkTable, POINT_STRIDE_FLOATS};
use godot_gsplat::floats::F32;
use godot_gsplat::gsplat_pack::QuantizationRanges;
use godot_gsplat::node::gpu_sort::SortGpu;
use godot_gsplat::node::render_build::{
    decimate_payload, max_packable_points, pack_quantized_records, pack_raw, packed_point_count,
    packed_record_count, plan_apply, read_u16, rebuild_action, record_position, render_scale,
    render_sh_degree, render_slice, sh_texels, DrawSlots, ImageFormat, PreparedSplat, RebuildAction, SliceSource,
    SplatDraw, SYNC_BUILD_MAX_SPLATS,
};
use godot_gsplat::node::render_state::{
    material_params, sort_flags, MaterialValue, SplatRenderBackend,
};
use godot_gsplat::words::bytes_to_floats;

fn bits(value: f32) -> F32 {
    F32::from_bits(value.to_bits())
}

fn number(value: F32) -> f32 {
    f32::from_bits(value.to_bits())
}

fn all_bits(values: &[f32]) -> Vec<F32> {
    values.iter().map(|&value| bits(value)).collect()
}

fn prepared(splat: &[f32], scale_multiplier: f32) -> PreparedSplat {
    let q = [splat[3], splat[4], splat[5], splat[6]];
    let length = (q[0] * q[0] + q[1] * q[1] + q[2] * q[2] + q[3] * q[3]).sqrt();
    let q = if length > 1.0e-12 {
        let inv = 1.0 / length;
        [q[0] * inv, q[1] * inv, q[2] * inv, q[3] * inv]
    } else {
        [0.0, 0.0, 0.0, 1.0]
    };
    PreparedSplat {
        rotation: [bits(q[0]), bits(q[1]), bits(q[2]), bits(q[3])],
        scale: [
            bits(splat[7] * scale_multiplier),
            bits(splat[8] * scale_multiplier),
            bits(splat[9] * scale_multiplier),
        ],
    }
}

fn draw(n: u64) -> SplatDraw {
    SplatDraw {
        mesh_rid: n,
        instance_rid: n + 100,
        splat_count: n as i32,
    }
}

fn counting_splats(count: usize) -> Vec<f32> {
    (0..count * POINT_STRIDE_FLOATS).map(|i| i as f32).collect()
}

#[test]
fn data_texture_capacity_per_sh_degree() {
    assert_eq!(max_packable_points(4 + sh_texels(0)), 16_777_216);
    assert_eq!(max_packable_points(4 + sh_texels(1)), 9_586_980);
    assert_eq!(max_packable_points(4 + sh_texels(2)), 6_710_886);
    assert_eq!(max_packable_points(4 + sh_texels(3)), 4_194_304);
}

#[test]
fn pack_raw_truncates_to_texture_capacity() {
    let one_splat = {
        let mut floats = vec![0.0_f32; POINT_STRIDE_FLOATS];
        floats[6] = 1.0; // identity quaternion w
        floats
    };
    let ready = vec![prepared(&one_splat, 1.0)];
    let raw = pack_raw(&all_bits(&one_splat), POINT_STRIDE_FLOATS, 0, &ready).expect("pack");
    assert_eq!(raw.splat_count, 1);
    // What is over capacity is cut off, not refused.
    let over = 5_000_000 * 63;
    assert_eq!(packed_point_count(over, 63, 3), 4_194_304);
    assert_eq!(packed_point_count(over, 63, 0), 5_000_000);
    assert_eq!(packed_point_count(17, 18, 0), 0);
}

#[test]
fn texels_hold_the_fields_of_a_splat() {
    let splats = counting_splats(2);
    let ready: Vec<PreparedSplat> = splats
        .chunks(POINT_STRIDE_FLOATS)
        .map(|splat| prepared(splat, 2.0))
        .collect();
    let raw = pack_raw(&all_bits(&splats), POINT_STRIDE_FLOATS, 0, &ready).expect("pack");
    assert_eq!(raw.tex_width, 4096);
    assert_eq!(raw.tex_height, 1);
    assert_eq!(raw.image_format, ImageFormat::Rgbaf);
    assert_eq!(raw.data_bytes.len(), 4096 * 16);
    let texels: Vec<f32> = bytes_to_floats(&raw.data_bytes)
        .iter()
        .map(|&value| number(value))
        .collect();
    for i in 0..2 {
        let splat = &splats[18 * i..18 * i + 18];
        let texel = &texels[16 * i..16 * i + 16];
        assert_eq!(&texel[0..3], &splat[0..3]);
        assert_eq!(texel[3], 2.0 * splat[7]);
        assert_eq!(texel[4], 2.0 * splat[8]);
        assert_eq!(texel[5], 2.0 * splat[9]);
        assert_eq!(texel[6], number(ready[i].rotation[0]));
        assert_eq!(texel[9], number(ready[i].rotation[3]));
        assert_eq!(&texel[10..12], &[0.0, 0.0]);
        assert_eq!(&texel[12..16], &splat[14..18]);
    }
    let positions: Vec<f32> = raw.positions.iter().map(|&value| number(value)).collect();
    assert_eq!(positions, vec![0.0, 1.0, 2.0, 1.0, 18.0, 19.0, 20.0, 1.0]);
    assert_eq!(number(raw.center_min[1]), 1.0);
    assert_eq!(number(raw.center_max[1]), 19.0);
    assert!(pack_raw(&[], POINT_STRIDE_FLOATS, 0, &vec![]).is_none());
}

#[test]
fn coefficients_follow_the_core_texels() {
    let splats: Vec<f32> = (0..27).map(|i| i as f32).collect();
    let ready = vec![prepared(&splats, 1.0)];
    let raw = pack_raw(&all_bits(&splats), 27, 1, &ready).expect("pack");
    let texels = bytes_to_floats(&raw.data_bytes);
    assert_eq!(number(texels[16]), 18.0);
    assert_eq!(number(texels[24]), 26.0);
    assert_eq!(number(texels[25]), 0.0);
    assert_eq!(raw.sh_degree, 1);
}

#[test]
fn quantized_records_are_copied() {
    let ranges = QuantizationRanges {
        position_min: [bits(0.0); 3],
        position_max: [bits(1.0); 3],
        scale_min: [bits(0.0); 3],
        scale_max: [bits(1.0); 3],
        sh_min: bits(-1.0),
        sh_max: bits(1.0),
    };
    let records: Vec<u8> = (0..48).collect();
    let centers = vec![[bits(1.0), bits(2.0), bits(3.0)], [bits(4.0), bits(0.0), bits(6.0)]];
    let raw = pack_quantized_records(&records, 24, 9, &centers, &ranges).expect("pack");
    assert_eq!(raw.splat_count, 2);
    assert_eq!(raw.image_format, ImageFormat::Rgba8);
    assert_eq!(raw.data_encoding, 1);
    assert_eq!(raw.packed_record_bytes, 24);
    assert_eq!(raw.sh_degree, 3);
    assert_eq!(&raw.data_bytes[..48], &records[..]);
    assert_eq!(raw.data_bytes.len(), 4096 * 4);
    assert_eq!(raw.data_bytes[48], 0);
    assert_eq!(number(raw.center_min[1]), 0.0);
    assert_eq!(number(raw.center_max[2]), 6.0);
    assert!(pack_quantized_records(&records[..40], 24, 0, &centers, &ranges).is_none());
    assert!(pack_quantized_records(&records, 0, 0, &centers, &ranges).is_none());
    assert_eq!(packed_record_count(48, 24), 2);
    assert_eq!(read_u16(&records, 2), 0x0302);
    assert_eq!(record_position(&records, 24, 1), [0x1918, 0x1b1a, 0x1d1c]);
}

#[test]
fn decimation_samples_evenly() {
    let values = all_bits(&counting_splats(10));
    let thinned = decimate_payload(&values, Some(4)).expect("splats");
    let firsts: Vec<f32> = thinned
        .chunks(POINT_STRIDE_FLOATS)
        .map(|splat| number(splat[0]) / 18.0)
        .collect();
    assert_eq!(firsts, vec![0.0, 3.0, 6.0, 9.0]);
    assert_eq!(decimate_payload(&values, None).expect("splats").len(), 180);
    assert!(decimate_payload(&values, Some(0)).is_none());
    assert!(decimate_payload(&values, Some(-3)).is_none());
    assert!(decimate_payload(&values[..5], Some(4)).is_none());
}

#[test]
fn slices_come_from_chunks_or_from_the_whole() {
    let values = all_bits(&counting_splats(3));
    let table = ChunkTable {
        chunk_size: bits(2.0),
        grid_origin: [bits(0.0); 3],
        entries: vec![
            ChunkEntry {
                grid: [0, 0, 0],
                aabb_min: [bits(0.0); 3],
                aabb_max: [bits(1.0); 3],
                offset: 0,
                count: 2,
            },
            ChunkEntry {
                grid: [1, 0, 0],
                aabb_min: [bits(0.0); 3],
                aabb_max: [bits(1.0); 3],
                offset: 2,
                count: 1,
            },
        ],
        stride: POINT_STRIDE_FLOATS,
    };
    let active = vec![(1, 1), (0, 1)];
    let streamed = SliceSource::Chunks {
        payload: Some(&values),
        table: &table,
        active: &active,
        sh_degree_available: 2,
    };
    let slice = render_slice(streamed, Some(3), Some(1)).expect("slice");
    assert_eq!(slice.values.len(), 36);
    assert_eq!(slice.values[0], values[36]);
    assert_eq!(slice.sh_degree, 2);
    let on_disk = SliceSource::Chunks {
        payload: None,
        table: &table,
        active: &active,
        sh_degree_available: 2,
    };
    assert!(render_slice(on_disk, None, None).is_none());
    let whole = render_slice(SliceSource::Whole(Some(&values)), Some(3), Some(1)).expect("slice");
    assert_eq!(whole.values, values[..18].to_vec());
    assert_eq!(whole.sh_degree, 0);
    assert!(render_slice(SliceSource::Whole(None), None, None).is_none());
    assert!(render_slice(SliceSource::Whole(Some(&values)), None, Some(0)).is_none());
}

#[test]
fn rendered_degree_is_what_both_sides_allow() {
    assert_eq!(render_sh_degree(None, 2), 2);
    assert_eq!(render_sh_degree(Some(1), 3), 1);
    assert_eq!(render_sh_degree(Some(7), 3), 3);
    assert_eq!(render_sh_degree(Some(-2), 3), 0);
}

#[test]
fn large_sets_are_built_in_the_background() {
    let small = vec![(0, 10)];
    let limit = vec![(0, SYNC_BUILD_MAX_SPLATS as u32)];
    let large = vec![(0, SYNC_BUILD_MAX_SPLATS as u32), (1, 1)];
    let choose = |editor: bool, packed: bool, active: &Vec<(u32, u32)>| {
        rebuild_action(true, Some(true), editor, Some((packed, active)))
    };
    assert_eq!(choose(false, false, &small), RebuildAction::BuildNow);
    assert_eq!(choose(false, false, &limit), RebuildAction::BuildNow);
    assert_eq!(choose(false, false, &large), RebuildAction::BuildAsync);
    assert_eq!(choose(false, true, &small), RebuildAction::BuildAsync);
    assert_eq!(choose(true, true, &large), RebuildAction::BuildNow);
    assert_eq!(rebuild_action(true, None, false, None), RebuildAction::BuildNow);
    assert_eq!(rebuild_action(false, None, false, None), RebuildAction::Clear);
    assert_eq!(rebuild_action(true, Some(false), false, None), RebuildAction::Clear);
}

#[test]
fn replaced_draws_are_freed_or_kept() {
    let mut slots = DrawSlots {
        current: None,
        transition: None,
    };
    assert!(slots.replace(draw(1), true).is_empty());
    assert!(slots.replace(draw(2), true).is_empty());
    assert_eq!(slots.transition, Some(draw(1)));
    assert_eq!(slots.replace(draw(3), true), vec![draw(2)]);
    assert_eq!(slots.finish_transition(), vec![draw(1)]);
    assert_eq!(slots.replace(draw(4), false), vec![draw(3)]);
    assert_eq!(slots.clear(), vec![draw(4)]);
    assert!(slots.clear().is_empty());
    assert!(slots.finish_transition().is_empty());
}

#[test]
fn a_new_set_waits_until_it_is_sorted() {
    let mut backend = SplatRenderBackend::default();
    let first = plan_apply(&backend.draws, false, true, 7);
    assert!(first.visible);
    assert!(!first.transition_to_sorted);
    assert_eq!(first.vertex_count, 42);
    let released = backend.take_over(draw(1), &first, vec![1, 2, 3]);
    assert!(released.draws.is_empty());
    assert_eq!(backend.sorts.sort.splat_count, 1);
    backend.sorts.sort.handles.pos_buf = 55;

    let second = plan_apply(&backend.draws, false, true, i32::MAX);
    assert!(second.transition_to_sorted);
    assert!(second.preserve_sort);
    assert!(!second.visible);
    assert_eq!(second.vertex_count, i32::MAX);
    let released = backend.take_over(draw(2), &second, vec![4]);
    assert!(released.handles.is_empty());
    assert_eq!(backend.draws.transition, Some(draw(1)));
    assert_eq!(backend.sorts.sort.handles.pos_buf, 0);
    backend.sorts.sort.handles.pos_buf = 66;

    // The draw that is still visible keeps its own sort; the one that never was seen goes.
    let third = plan_apply(&backend.draws, false, true, 3);
    assert!(!third.preserve_sort);
    let released = backend.take_over(draw(3), &third, vec![5]);
    assert_eq!(released.draws, vec![draw(2)]);
    assert_eq!(released.handles, vec![66]);

    let released = backend.finish_transition();
    assert_eq!(released.draws, vec![draw(1)]);
    assert_eq!(released.handles, vec![55]);
    let released = backend.clear();
    assert_eq!(released.draws, vec![draw(3)]);
    assert!(backend.finish_transition().draws.is_empty());

    let in_editor = plan_apply(
        &DrawSlots {
            current: Some(draw(1)),
            transition: None,
        },
        true,
        false,
        1,
    );
    assert!(!in_editor.transition_to_sorted);
    assert!(!in_editor.visible);
}

#[test]
fn the_shader_is_told_how_to_read_a_set() {
    let one_splat = counting_splats(1);
    let ready = vec![prepared(&one_splat, 1.0)];
    let raw = pack_raw(&all_bits(&one_splat), POINT_STRIDE_FLOATS, 0, &ready).expect("pack");
    let params = material_params(&raw, 1);
    let find = |name: &str| params.iter().find(|p| p.name == name).unwrap().value;
    assert_eq!(params.len(), 13);
    assert_eq!(find("splat_count"), MaterialValue::Int(1));
    assert_eq!(find("splat_depth_mode"), MaterialValue::Int(1));
    assert_eq!(find("sort_enabled"), MaterialValue::Int(0));
    assert_eq!(find("position_max"), MaterialValue::Vector([bits(1.0); 3]));
    assert_eq!(find("sh_min"), MaterialValue::Float(bits(-1.0)));
    let mut sort = SortGpu::default();
    assert_eq!(sort_flags(&sort, true), (1, 0));
    sort.per_eye_dispatched = true;
    assert_eq!(sort_flags(&sort, true), (1, 1));
    assert_eq!(sort_flags(&sort, false), (0, 0));
}

#[test]
fn splats_keep_a_smallest_scale() {
    assert_eq!(render_scale(None), bits(1.0));
    assert_eq!(render_scale(Some(bits(2.5))), bits(2.5));
    assert_eq!(render_scale(Some(bits(0.0))), bits(0.01));
    assert_eq!(render_scale(Some(bits(-4.0))), bits(0.01));
    assert_eq!(render_scale(Some(bits(f32::NAN))), bits(0.01));
}
