use godot_gsplat::asset::{pack_bounds, GaussianSplatAsset};
use godot_gsplat::chunking::{ChunkEntry, ChunkTable};
use godot_gsplat::cloud_settings::{ChunkSelection, GaussianSplatCloudSettings};
use godot_gsplat::extents::LocalBox;
use godot_gsplat::floats::F32;
use godot_gsplat::gsplat_pack::selection::{ChunkView, ViewLimits};
use godot_gsplat::gsplat_pack::{GsplatPackIndex, PackChunk, PackNodeLod, PackPage};
use godot_gsplat::import_state::ImportedSplatMetadata;
use godot_gsplat::node::chunk_streaming::{
    is_streamed, plan_gather, select_active, select_initial, selection_budget, stream_settings,
    view_priority_budget, ChunkRuntime, PageCacheState, PageGather, PageTake, SelectionReading,
    StreamSettings, WorkerFollowUp, WorkerReport, PACK_PAGE_CACHE_LIMIT,
};
use godot_gsplat::view_selection::select_chunks_view_priority;

fn bits(value: f32) -> F32 {
    F32::from_bits(value.to_bits())
}

fn entry(offset: u32, count: u32, low: f32) -> ChunkEntry {
    ChunkEntry {
        grid: [0, 0, 0],
        aabb_min: [bits(low); 3],
        aabb_max: [bits(low + 1.0); 3],
        offset,
        count,
    }
}

fn page(chunk_index: u32, start_in_lod: u32, count: u32) -> PackPage {
    PackPage {
        chunk_index,
        lod_index: chunk_index,
        start_in_lod,
        count,
        byte_offset: 0,
        byte_len: 0,
    }
}

// Two chunks: five splats in three pages of two, and three splats in two pages.
fn index() -> GsplatPackIndex {
    let full = |chunk_index: u32, count: u32, first_page: u32, page_count: u32| PackNodeLod {
        chunk_index,
        lod_level: 0,
        count,
        first_page,
        page_count,
    };
    GsplatPackIndex {
        path: "user://cloud.gsplatpack".to_string(),
        point_count: 8,
        stride: 18,
        record_bytes: 24,
        sh_degree_available: 0,
        chunk_size: bits(2.0),
        grid_origin: [bits(0.0); 3],
        position_min: [bits(0.0); 3],
        position_max: [bits(1.0); 3],
        scale_min: [bits(0.0); 3],
        scale_max: [bits(1.0); 3],
        sh_min: bits(-1.0),
        sh_max: bits(1.0),
        lod_levels: 1,
        chunks: vec![
            PackChunk {
                entry: entry(0, 5, 0.0),
                first_page: 0,
                page_count: 3,
            },
            PackChunk {
                entry: entry(5, 3, 4.0),
                first_page: 3,
                page_count: 2,
            },
        ],
        lods: vec![full(0, 5, 0, 3), full(1, 3, 3, 2)],
        pages: vec![
            page(0, 0, 2),
            page(0, 2, 2),
            page(0, 4, 1),
            page(1, 0, 2),
            page(1, 2, 1),
        ],
    }
}

fn take(page_index: u32, count: u32) -> PageTake {
    PageTake { page_index, count }
}

fn reading() -> SelectionReading {
    SelectionReading {
        camera: Some([bits(1.0); 3]),
        forward: Some([bits(0.0), bits(0.0), bits(-1.0)]),
        moved: false,
        rotated: false,
        fov_degrees: bits(200.0),
        full_distance: bits(5.0),
        cone_changed: false,
        min_lod: 256,
        budget: 100,
    }
}

fn runtime() -> ChunkRuntime {
    ChunkRuntime::start(0, vec![], 100, bits(200.0), bits(5.0), 256)
}

#[test]
fn the_page_used_longest_ago_leaves() {
    let mut cache: PageCacheState<u8> = PageCacheState::new();
    for number in 0..PACK_PAGE_CACHE_LIMIT as u32 {
        cache.insert(number, vec![number as u8]);
    }
    assert!(cache.touch(0));
    cache.insert(100, vec![7]);
    assert_eq!(cache.get(0), Some(&vec![0]));
    assert_eq!(cache.get(1), None);
    assert_eq!(cache.get(2), Some(&vec![2]));
    assert_eq!(cache.get(100), Some(&vec![7]));
    assert!(!cache.touch(1));
    cache.insert(100, vec![8]);
    assert_eq!(cache.get(100), Some(&vec![8]));
    assert_eq!(cache.get(2), Some(&vec![2]));
}

#[test]
fn prefixes_are_gathered_page_by_page() {
    let pack = index();
    let takes = plan_gather(&pack, &[(1, 3), (0, 3), (9, 4), (0, 0)]);
    assert_eq!(takes, vec![take(3, 2), take(4, 1), take(0, 2), take(1, 1)]);
    assert_eq!(
        plan_gather(&pack, &[(0, 99)]),
        vec![take(0, 2), take(1, 2), take(2, 1)]
    );
    let mut gather: PageGather<u8> = PageGather::start(takes, 2);
    let mut asked = vec![];
    while let Some(number) = gather.next_page() {
        asked.push(number);
        let base = number as u8 * 10;
        gather.hand_over(&vec![base, base + 1, base + 2, base + 3]);
    }
    assert_eq!(asked, vec![3, 4, 0, 1]);
    assert_eq!(
        gather.finish(),
        vec![30, 31, 32, 33, 40, 41, 0, 1, 2, 3, 10, 11]
    );
}

#[test]
fn short_pages_are_passed_over() {
    let mut gather: PageGather<u8> = PageGather::start(vec![take(0, 2), take(1, 1)], 2);
    gather.hand_over(&vec![1, 2, 3]);
    gather.hand_over(&vec![4, 5]);
    assert_eq!(gather.next_page(), None);
    assert_eq!(gather.finish(), vec![4, 5]);
}

#[test]
fn selections_wait_for_a_change() {
    let mut state = runtime();
    assert!(state.selection_due(ChunkSelection::Nearest, &reading()));
    assert!(state.adopt_selection(ChunkSelection::Nearest, &reading(), vec![(0, 5)]));
    assert!(!state.selection_due(ChunkSelection::Nearest, &reading()));
    assert!(!state.adopt_selection(ChunkSelection::Nearest, &reading(), vec![(0, 5)]));
    let mut moved = reading();
    moved.moved = true;
    assert!(state.selection_due(ChunkSelection::Nearest, &moved));
    assert!(!state.selection_due(ChunkSelection::Coverage, &moved));
    let mut turned = reading();
    turned.rotated = true;
    assert!(!state.selection_due(ChunkSelection::Nearest, &turned));
    assert!(state.selection_due(ChunkSelection::ViewPriority, &reading()));
    state.adopt_selection(ChunkSelection::ViewPriority, &reading(), vec![(0, 5)]);
    assert!(!state.selection_due(ChunkSelection::ViewPriority, &reading()));
    assert!(state.selection_due(ChunkSelection::ViewPriority, &turned));
    let mut richer = reading();
    richer.budget = 101;
    assert!(state.selection_due(ChunkSelection::Coverage, &richer));
    let mut coarser = reading();
    coarser.min_lod = 1;
    assert!(state.selection_due(ChunkSelection::ViewPriority, &coarser));
    assert!(!state.selection_due(ChunkSelection::Nearest, &coarser));
}

#[test]
fn only_coverage_needs_no_camera() {
    let state = runtime();
    let mut blind = reading();
    blind.camera = None;
    assert!(!state.selection_due(ChunkSelection::Nearest, &blind));
    assert!(state.selection_due(ChunkSelection::Coverage, &blind));
    let mut aimless = reading();
    aimless.forward = None;
    assert!(!state.selection_due(ChunkSelection::ViewPriority, &aimless));
    assert!(state.selection_due(ChunkSelection::Nearest, &aimless));
    let mut busy = runtime();
    busy.request_rebuild();
    assert!(!busy.selection_due(ChunkSelection::Nearest, &reading()));
}

#[test]
fn rebuilds_queue_behind_each_other() {
    let mut state = runtime();
    assert!(state.request_rebuild());
    assert!(!state.request_rebuild());
    assert!(!state.request_rebuild());
    let nothing = WorkerFollowUp {
        apply: false,
        start: false,
    };
    assert_eq!(state.poll(WorkerReport::Busy), nothing);
    assert_eq!(
        state.poll(WorkerReport::Delivered),
        WorkerFollowUp {
            apply: true,
            start: true
        }
    );
    assert_eq!(state.poll(WorkerReport::Ended), nothing);
    assert!(!state.pending);
    assert_eq!(state.poll(WorkerReport::Delivered), nothing);
}

#[test]
fn budgets_below_one_are_no_limit() {
    assert_eq!(selection_budget(0), u32::MAX);
    assert_eq!(selection_budget(-1), u32::MAX);
    assert_eq!(selection_budget(12), 12);
    assert_eq!(view_priority_budget(0, 800_000), 800_000);
    assert_eq!(view_priority_budget(10, 800_000), 10);
    assert_eq!(view_priority_budget(10, -5), 0);
}

#[test]
fn every_way_of_choosing_is_offered() {
    let pack = index();
    let table: ChunkTable = pack.chunk_table();
    let distances = vec![bits(9.0), bits(1.0)];
    let view = |distance: f32| ChunkView {
        distance: bits(distance),
        center_dot: bits(1.0),
        priority: bits(1.0),
    };
    let views = vec![view(9.0), view(1.0)];
    let limits = ViewLimits {
        fov_degrees: bits(360.0),
        cos_half_fov: bits(-1.0),
        full_distance: bits(5.0),
    };
    let choose = |selection: ChunkSelection, budget: i32| {
        select_active(
            selection, &table, &distances, &views, &limits, budget, 800_000, 1,
        )
    };
    assert_eq!(choose(ChunkSelection::Nearest, 4), vec![(0, 1), (1, 3)]);
    assert_eq!(choose(ChunkSelection::Nearest, 0), vec![(0, 5), (1, 3)]);
    let covered = choose(ChunkSelection::Coverage, 4);
    assert_eq!(covered.len(), 2);
    assert!(covered.iter().map(|item| item.1).sum::<u32>() <= 4);
    assert_eq!(choose(ChunkSelection::ViewPriority, 2), vec![(1, 2)]);
}

#[test]
fn views_lower_density_before_they_drop_chunks() {
    let mut pack = index();
    pack.chunks[1].entry.count = 6;
    let table: ChunkTable = pack.chunk_table();
    let view = |center_dot: f32, priority: f32| ChunkView {
        distance: bits(1.0),
        center_dot: bits(center_dot),
        priority: bits(priority),
    };
    let views = vec![view(0.9, 2.0), view(0.5, 1.0)];
    let wide = ViewLimits {
        fov_degrees: bits(120.0),
        cos_half_fov: bits(0.5),
        full_distance: bits(5.0),
    };
    let narrow = ViewLimits {
        fov_degrees: bits(60.0),
        cos_half_fov: bits(0.866),
        full_distance: bits(5.0),
    };
    let none = ViewLimits {
        full_distance: bits(0.0),
        ..wide
    };
    let choose = |limits: &ViewLimits, budget: u32, min_lod: u32| {
        select_chunks_view_priority(&table, &views, limits, budget, min_lod)
    };
    assert_eq!(choose(&wide, 100, 2), vec![(0, 5), (1, 6)]);
    assert_eq!(choose(&wide, 9, 2), vec![(0, 5), (1, 4)]);
    assert_eq!(choose(&wide, 6, 2), vec![(0, 4), (1, 2)]);
    assert_eq!(choose(&wide, 4, 2), vec![(0, 2), (1, 2)]);
    assert_eq!(choose(&wide, 3, 2), vec![(0, 3)]);
    assert_eq!(choose(&wide, 7, 4), vec![(0, 5)]);
    assert_eq!(choose(&wide, 1, 4), vec![]);
    assert_eq!(choose(&narrow, 100, 2), vec![(0, 5)]);
    assert_eq!(choose(&none, 100, 2), vec![]);
    assert_eq!(choose(&wide, 0, 2), vec![]);
}

#[test]
fn streamed_clouds_have_chunks_and_splats() {
    assert!(is_streamed(true, true, false));
    assert!(is_streamed(true, false, true));
    assert!(!is_streamed(true, false, false));
    assert!(!is_streamed(false, true, true));
}

#[test]
fn packs_stand_in_for_payloads() {
    let pack = index();
    let (low, high) = pack_bounds(&pack).unwrap();
    assert_eq!((low[0], high[0]), (bits(0.0), bits(5.0)));
    let bounds = LocalBox {
        position: low,
        size: [bits(5.0); 3],
    };
    let mut asset = GaussianSplatAsset::default();
    asset.apply_pack_index(ImportedSplatMetadata::default(), pack, bounds);
    assert_eq!(asset.get_point_count(), 8);
    assert_eq!(asset.get_payload_byte_len(), 0);
    assert_eq!(asset.chunk_table().unwrap().entries.len(), 2);
    assert_eq!(asset.pack_index().unwrap().pages.len(), 5);
    let mut empty = index();
    empty.chunks.clear();
    assert!(pack_bounds(&empty).is_none());
}

#[test]
fn streaming_follows_the_settings() {
    let defaults = StreamSettings {
        selection: ChunkSelection::Nearest,
        budget: i32::MAX,
        fov_degrees: bits(200.0),
        full_distance: bits(5.0),
        target: 800_000,
        min_lod: 256,
    };
    assert_eq!(stream_settings(None), defaults);
    let mut cloud = GaussianSplatCloudSettings::default();
    assert_eq!(stream_settings(Some(cloud)), defaults);
    cloud.max_preview_splats = -3;
    cloud.view_priority_target_budget = -1;
    cloud.view_priority_min_lod_per_chunk = 0;
    cloud.chunk_selection = ChunkSelection::Coverage;
    assert_eq!(
        stream_settings(Some(cloud)),
        StreamSettings {
            selection: ChunkSelection::Coverage,
            budget: 0,
            target: 0,
            min_lod: 1,
            ..defaults
        }
    );
}

#[test]
fn the_first_selection_needs_no_camera() {
    let table = ChunkTable {
        chunk_size: bits(2.0),
        grid_origin: [bits(0.0); 3],
        entries: vec![entry(0, 4, 0.0), entry(4, 4, 2.0)],
        stride: 18,
    };
    let distances = vec![bits(3.0), bits(1.0)];
    let mut settings = stream_settings(None);
    settings.budget = 6;
    assert_eq!(
        select_initial(&settings, &table, &distances),
        vec![(0, 2), (1, 4)]
    );
    settings.selection = ChunkSelection::Coverage;
    assert_eq!(
        select_initial(&settings, &table, &distances),
        vec![(0, 3), (1, 3)]
    );
    settings.selection = ChunkSelection::ViewPriority;
    assert_eq!(select_initial(&settings, &table, &distances), vec![]);
}
