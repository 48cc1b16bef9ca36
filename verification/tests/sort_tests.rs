use godot::builtin::{Aabb, Transform3D, Vector3};
use godot_gsplat::floats::F32;
use godot_gsplat::node::gpu_sort::{
    build_sort_push_constant, depth_bounds, keep_valid, sort_inputs_from_texture, DataTexture,
    SortGpu, SortHandles, SortSlots, SortStage, SortTarget,
};
use godot_gsplat::words::bytes_to_floats;

fn bits(value: f32) -> F32 {
    F32::from_bits(value.to_bits())
}

fn number(value: F32) -> f32 {
    f32::from_bits(value.to_bits())
}

fn aabb_corners(aabb: Aabb) -> [Vector3; 8] {
    let p = aabb.position;
    let s = aabb.size;
    [
        Vector3::new(p.x, p.y, p.z),
        Vector3::new(p.x + s.x, p.y, p.z),
        Vector3::new(p.x, p.y + s.y, p.z),
        Vector3::new(p.x, p.y, p.z + s.z),
        Vector3::new(p.x + s.x, p.y + s.y, p.z),
        Vector3::new(p.x + s.x, p.y, p.z + s.z),
        Vector3::new(p.x, p.y + s.y, p.z + s.z),
        Vector3::new(p.x + s.x, p.y + s.y, p.z + s.z),
    ]
}

fn depth_range(view: Transform3D, aabb: Aabb) -> (f32, f32) {
    let distances: Vec<F32> = aabb_corners(aabb)
        .iter()
        .map(|&corner| bits((view * corner).length()))
        .collect();
    let (start, reach) = depth_bounds(&distances);
    (number(start), 1.0 / number(reach))
}

fn some_handles() -> SortHandles {
    SortHandles {
        pos_buf: 1,
        hist_buf: 2,
        off_buf: 3,
        blocks_buf: 4,
        sort_tex: 5,
        sort_tex_b: 6,
        shaders: [10, 11, 12, 13, 14],
        pipelines: [20, 21, 22, 23, 24],
        sets: [30, 31, 32, 33, 34],
        scatter_set_b: 40,
    }
}

fn ready_sort() -> SortGpu {
    let mut sort = SortGpu::default();
    sort.stash_inputs(vec![0; 16 * 300], 300);
    let plan = sort.plan_setup().expect("plan");
    sort.install(&plan, some_handles());
    sort
}

const HERE: [F32; 3] = [F32 { bits: 0 }, F32 { bits: 0 }, F32 { bits: 0 }];

#[test]
fn depth_range_is_rotation_invariant() {
    let aabb = Aabb::new(Vector3::new(-3.0, -2.0, -5.0), Vector3::new(8.0, 4.0, 9.0));
    let view = Transform3D::IDENTITY.translated(Vector3::new(0.5, -1.0, 2.0));
    let rotated = Transform3D::default()
        .rotated(Vector3::UP, 0.7)
        .rotated(Vector3::RIGHT, -0.3)
        * view;
    let (min_a, inv_a) = depth_range(view, aabb);
    let (min_b, inv_b) = depth_range(rotated, aabb);
    assert_eq!(min_a, 0.0);
    assert_eq!(min_b, 0.0);
    let range_a = 1.0 / inv_a;
    let range_b = 1.0 / inv_b;
    assert!(
        (range_a - range_b).abs() < range_a * 1.0e-5,
        "rotation changed the distance range: {range_a} vs {range_b}"
    );
}

#[test]
fn depth_range_lower_bound_is_zero_inside() {
    let aabb = Aabb::new(
        Vector3::new(-10.0, -5.0, -10.0),
        Vector3::new(20.0, 10.0, 20.0),
    );
    let inside = Transform3D::IDENTITY; // camera at the cloud center
    let (min_d, inv) = depth_range(inside, aabb);
    assert_eq!(min_d, 0.0);
    let range = 1.0 / inv;
    let half_diag = (Vector3::new(10.0, 5.0, 10.0)).length();
    assert!((range - half_diag).abs() < 1.0e-3);
}

#[test]
fn depths_pass_over_what_is_not_finite() {
    let distances = [bits(2.0), bits(f32::INFINITY), bits(f32::NAN), bits(7.0)];
    assert_eq!(depth_bounds(&distances), (bits(0.0), bits(7.0)));
    assert_eq!(depth_bounds(&[bits(f32::NAN)]), (bits(0.0), bits(1.0e-4)));
    assert_eq!(depth_bounds(&[]), (bits(0.0), bits(1.0e-4)));
}

#[test]
fn setup_needs_splats_and_centers() {
    let mut sort = SortGpu::default();
    assert!(sort.plan_setup().is_none());
    sort.stash_inputs(vec![], 5);
    assert!(sort.plan_setup().is_none());
    sort.stash_inputs(vec![0; 16], -1);
    assert!(sort.plan_setup().is_none());
    sort.stash_inputs(vec![0; 16 * 4097], 4097);
    let plan = sort.plan_setup().expect("plan");
    assert_eq!(plan.position_bytes, 16 * 4097);
    assert_eq!(plan.bucket_bytes, 65536 * 4);
    assert_eq!(plan.block_bytes, 64 * 4);
    assert_eq!((plan.tex_width, plan.tex_height), (4096, 2));
}

#[test]
fn stages_bind_what_they_use() {
    let slots = |stage: SortStage| -> Vec<i32> {
        stage.bindings().iter().map(|binding| binding.slot()).collect()
    };
    assert_eq!(slots(SortStage::Count), vec![0, 1]);
    assert_eq!(slots(SortStage::ScanLocal), vec![1, 2, 4]);
    assert_eq!(slots(SortStage::ScanBlocksums), vec![4]);
    assert_eq!(slots(SortStage::ScanAdd), vec![2, 4]);
    assert_eq!(slots(SortStage::Scatter), vec![0, 2, 3]);
}

#[test]
fn the_sampled_texture_is_never_written() {
    let mut sort = ready_sort();
    let mut now = 1000;
    for _ in 0..4 {
        let (front, _) = sort.material_textures();
        let work = sort.frame(&vec![0], HERE, true, now);
        let plan = work.dispatch.expect("sort");
        let written = if plan.scatter_sets[0] == 34 {
            SortTarget::A
        } else {
            SortTarget::B
        };
        assert_ne!(written, front);
        assert_eq!(sort.material_textures(), (written, written));
        now += 500;
    }
}

#[test]
fn sorting_waits_for_movement_and_time() {
    let mut sort = ready_sort();
    let eyes = vec![0];
    let first = sort.frame(&eyes, HERE, false, 1000);
    assert!(first.dispatch.is_some());
    assert!(!first.bind_material);
    // One frame later the sorted order is turned on.
    let second = sort.frame(&eyes, HERE, false, 1016);
    assert!(second.dispatch.is_none());
    assert!(second.bind_material);
    assert!(sort.enabled_in_shader);
    let still = sort.frame(&eyes, HERE, false, 5000);
    assert!(still.dispatch.is_none());
    assert!(!still.bind_material);
    let early = sort.frame(&eyes, HERE, true, 1199);
    assert!(early.dispatch.is_none());
    let due = sort.frame(&eyes, HERE, true, 1200);
    assert!(due.dispatch.is_some());
    assert!(due.bind_material);
    assert!(!sort.sort_interval_elapsed(100));
    assert!(sort.frame(&vec![], HERE, true, 9000).dispatch.is_none());
}

#[test]
fn dispatches_name_their_stages() {
    let mut sort = ready_sort();
    let plan = sort.plan_dispatch(&vec![0, 1]);
    assert_eq!(plan.scatter_sets, vec![34, 40]);
    assert_eq!(
        plan.stages,
        vec![
            (SortStage::Count, 2),
            (SortStage::ScanLocal, 64),
            (SortStage::ScanBlocksums, 1),
            (SortStage::ScanAdd, 64),
            (SortStage::Scatter, 2),
        ]
    );
    assert_eq!(plan.bucket_bytes, 262_144);
    let work = sort.frame(&vec![0, 1], HERE, false, 50);
    assert!(work.dispatch.is_some());
    assert!(sort.per_eye_dispatched);
    assert_eq!(sort.material_textures(), (SortTarget::A, SortTarget::B));
}

#[test]
fn torn_down_sorts_free_everything_once() {
    let mut sort = ready_sort();
    let freed = sort.teardown();
    assert_eq!(
        freed,
        vec![30, 31, 32, 33, 34, 40, 20, 21, 22, 23, 24, 10, 11, 12, 13, 14, 5, 6, 1, 2, 3, 4]
    );
    assert!(!sort.ready);
    assert!(sort.front_is_b);
    assert_eq!(sort.splat_count, 300);
    assert_eq!(sort.positions.len(), 4800);
    assert!(sort.teardown().is_empty());
    assert!(SortHandles::none().to_free().is_empty());
    assert_eq!(keep_valid(&[0, 7, 0, 8]), vec![7, 8]);
    let mut half = SortHandles::none();
    half.pos_buf = 9;
    half.shaders[0] = 8;
    assert_eq!(half.to_abandon(), vec![8, 9]);
}

#[test]
fn the_old_sort_is_kept_for_the_old_draw() {
    let mut slots = SortSlots {
        sort: ready_sort(),
        transition: None,
    };
    assert!(slots.preserve_for_draw_transition().is_empty());
    assert!(!slots.sort.ready);
    assert!(slots.transition.as_ref().unwrap().ready);
    slots.sort = ready_sort();
    assert_eq!(slots.preserve_for_draw_transition().len(), 22);
    assert_eq!(slots.clear_transition().len(), 22);
    assert!(slots.clear_transition().is_empty());
}

#[test]
fn centers_are_recovered_from_the_texture() {
    let values: Vec<F32> = (0..32).map(|i| bits(i as f32)).collect();
    let inputs = sort_inputs_from_texture(11, &values, 2).expect("inputs");
    let positions: Vec<f32> = inputs.positions.iter().map(|&value| number(value)).collect();
    assert_eq!(positions, vec![0.0, 1.0, 2.0, 1.0, 16.0, 17.0, 18.0, 1.0]);
    assert_eq!(number(inputs.center_min[0]), 0.0);
    assert_eq!(number(inputs.center_max[2]), 18.0);
    // Another format, too few numbers, or no splats.
    assert!(sort_inputs_from_texture(5, &values, 2).is_none());
    assert!(sort_inputs_from_texture(11, &values, 3).is_none());
    assert!(sort_inputs_from_texture(11, &values, 0).is_none());

    let mut sort = SortGpu::default();
    assert!(sort.wants_attempt());
    let texture = DataTexture {
        format: 11,
        values,
        splat_count: 2,
    };
    let work = sort.try_enable(Some(&texture));
    assert!(work.bounds.is_some());
    assert_eq!(work.setup.expect("plan").position_bytes, 32);
    assert_eq!(bytes_to_floats(&sort.positions)[4], bits(16.0));
    assert!(!sort.wants_attempt());
    let mut known = ready_sort();
    known.stash_inputs(vec![1; 16], 1);
    assert!(known.try_enable(Some(&texture)).bounds.is_none());
    assert_eq!(known.splat_count, 1);
    assert!(SortGpu::default().try_enable(None).setup.is_none());
}

#[test]
fn stages_are_given_the_view_by_columns() {
    let mut view = [bits(0.0); 12];
    for (i, value) in view.iter_mut().enumerate() {
        *value = bits(i as f32 + 1.0);
    }
    let bytes = build_sort_push_constant(&view, bits(0.0), bits(0.5), 300, 4096);
    assert_eq!(bytes.len(), 84);
    let words: Vec<u32> = bytes
        .chunks(4)
        .map(|word| u32::from_le_bytes([word[0], word[1], word[2], word[3]]))
        .collect();
    let floats: Vec<f32> = words[..18].iter().map(|&word| f32::from_bits(word)).collect();
    assert_eq!(
        floats,
        vec![
            1.0, 2.0, 3.0, 0.0, 4.0, 5.0, 6.0, 0.0, 7.0, 8.0, 9.0, 0.0, 10.0, 11.0, 12.0, 1.0,
            0.0, 0.5,
        ]
    );
    assert_eq!(&words[18..], &[65536, 300, 4096]);
}
