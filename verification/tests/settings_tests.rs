use godot_gsplat::asset::GaussianSplatAsset;
use godot_gsplat::backend::{
    GaussianSplatBackendSettings, BACKEND_PROFILE_DESKTOP, BACKEND_PROFILE_MOBILE,
    BACKEND_PROFILE_VR_SAFE, PIPELINE_DESKTOP_CLUSTERED, PIPELINE_DESKTOP_COMPOSITOR,
    PIPELINE_DESKTOP_DIRECT, PIPELINE_MOBILE_DIRECT, PIPELINE_VR_SAFE_SPATIAL,
};
use godot_gsplat::cloud_settings::{
    normalize_chunk_selection, ChunkSelection, GaussianSplatCloudSettings,
};
use godot_gsplat::extents::LocalBox;
use godot_gsplat::floats::F32;
use godot_gsplat::import_state::{
    ImportedSplatMetadata, FALLBACK_COLOR_POINTS, PAYLOAD_LAYOUT_FLOAT32_V1, PAYLOAD_LAYOUT_V1,
};
use godot_gsplat::render_manager::{
    GaussianSplatRenderManager, DEFAULT_UPLOAD_CHUNK_BYTES, MIN_UPLOAD_CHUNK_BYTES,
};
use godot_gsplat::render_packet::{
    GaussianSplatRenderPacket, PIPELINE_UNCONFIGURED, RENDER_STATUS_EMPTY,
    RENDER_STATUS_PENDING_UPLOAD, RENDER_UPLOAD_INTERLEAVED_FLOAT32, RENDER_UPLOAD_UNSUPPORTED,
};
use godot_gsplat::variant::{dict_bool, dict_i32, dict_string, Dictionary, Variant};
use godot_gsplat::words::floats_to_bytes;

fn bits(value: f32) -> F32 {
    F32::from_bits(value.to_bits())
}

fn metadata_with(points: i32) -> ImportedSplatMetadata {
    let mut metadata = ImportedSplatMetadata::default();
    metadata.point_count = points;
    metadata
}

fn unit_box() -> LocalBox {
    LocalBox {
        position: [bits(0.0); 3],
        size: [bits(1.0); 3],
    }
}

fn filled_asset(points: usize) -> GaussianSplatAsset {
    let values: Vec<F32> = (0..points * 18).map(|i| bits(i as f32)).collect();
    let mut asset = GaussianSplatAsset::default();
    asset.initialize_from_decoded(
        metadata_with(points as i32).to_dictionary(),
        floats_to_bytes(&values),
        PAYLOAD_LAYOUT_FLOAT32_V1,
        unit_box(),
    );
    asset
}

fn unsupported_packet() -> GaussianSplatRenderPacket {
    let mut placeholder = GaussianSplatAsset::default();
    placeholder.initialize_from_import(metadata_with(3).to_dictionary());
    let mut packet = GaussianSplatRenderPacket::default();
    packet.prepare_from_asset(&placeholder, PIPELINE_DESKTOP_DIRECT, 1);
    packet
}

#[test]
fn settings_keep_to_their_ranges() {
    let mut settings = GaussianSplatCloudSettings::default();
    assert_eq!(settings.get_max_preview_splats(), i32::MAX);
    assert_eq!(settings.get_sh_degree(), 3);
    assert_eq!(settings.get_max_preview_splat_radius(), bits(0.02));
    assert_eq!(settings.get_view_priority_fov_degrees(), bits(200.0));
    assert_eq!(settings.get_view_priority_full_distance(), bits(5.0));
    settings.set_gaussian_scale_multiplier(bits(-1.0));
    assert_eq!(settings.get_gaussian_scale_multiplier(), bits(0.01));
    settings.set_gaussian_scale_multiplier(bits(f32::NAN));
    assert_eq!(settings.get_gaussian_scale_multiplier(), bits(0.01));
    settings.set_max_preview_splat_radius(bits(0.0));
    assert_eq!(settings.get_max_preview_splat_radius(), bits(0.001));
    settings.set_max_preview_splats(-5);
    assert_eq!(settings.get_max_preview_splats(), 0);
    settings.set_sh_degree(9);
    assert_eq!(settings.get_sh_degree(), 3);
    settings.set_sh_degree(-9);
    assert_eq!(settings.get_sh_degree(), 0);
    settings.set_view_priority_fov_degrees(bits(0.0));
    assert_eq!(settings.get_view_priority_fov_degrees(), bits(1.0));
    settings.set_view_priority_fov_degrees(bits(1000.0));
    assert_eq!(settings.get_view_priority_fov_degrees(), bits(360.0));
    settings.set_view_priority_full_distance(bits(-2.0));
    assert_eq!(settings.get_view_priority_full_distance(), bits(0.0));
    settings.set_view_priority_target_budget(-1);
    assert_eq!(settings.get_view_priority_target_budget(), 0);
    settings.set_view_priority_min_lod_per_chunk(0);
    assert_eq!(settings.get_view_priority_min_lod_per_chunk(), 1);
    settings.set_xr_fixed_splat_budget(-1);
    assert_eq!(settings.get_xr_fixed_splat_budget(), 0);
    settings.set_splat_visible(false);
    settings.set_render_enabled(false);
    settings.set_xr_fixed_budget_enabled(true);
    assert!(!settings.is_splat_visible());
    assert!(!settings.is_render_enabled());
    assert!(settings.is_xr_fixed_budget_enabled());
    settings.apply_defaults();
    assert_eq!(settings, GaussianSplatCloudSettings::default());
}

#[test]
fn unknown_selections_are_the_nearest() {
    for selection in [
        ChunkSelection::Nearest,
        ChunkSelection::Coverage,
        ChunkSelection::ViewPriority,
    ] {
        assert_eq!(normalize_chunk_selection(selection.name()), selection);
    }
    assert_eq!(normalize_chunk_selection("farthest"), ChunkSelection::Nearest);
    let mut settings = GaussianSplatCloudSettings::default();
    assert_eq!(settings.get_chunk_selection(), "nearest");
    settings.set_chunk_selection("view_priority");
    assert_eq!(settings.get_chunk_selection(), "view_priority");
}

#[test]
fn pipelines_follow_profile_and_size() {
    let mut settings = GaussianSplatBackendSettings::default();
    let choose = |settings: &GaussianSplatBackendSettings, points: i32| {
        settings.resolve_pipeline_for_metadata(&metadata_with(points))
    };
    assert_eq!(choose(&settings, 10), PIPELINE_DESKTOP_DIRECT);
    assert_eq!(choose(&settings, 200_000), PIPELINE_DESKTOP_CLUSTERED);
    assert_eq!(choose(&settings, 199_999), PIPELINE_DESKTOP_DIRECT);
    settings.set_allow_compositor(true);
    assert_eq!(choose(&settings, 200_000), PIPELINE_DESKTOP_COMPOSITOR);
    settings.set_target_hint(BACKEND_PROFILE_MOBILE);
    assert_eq!(choose(&settings, 200_000), PIPELINE_MOBILE_DIRECT);
    settings.set_target_hint(BACKEND_PROFILE_VR_SAFE);
    assert_eq!(choose(&settings, 200_000), PIPELINE_VR_SAFE_SPATIAL);
    settings.set_profile(BACKEND_PROFILE_DESKTOP);
    assert_eq!(choose(&settings, 200_000), PIPELINE_DESKTOP_COMPOSITOR);
    assert_eq!(
        settings.resolve_pipeline(metadata_with(1).to_dictionary()),
        PIPELINE_DESKTOP_DIRECT
    );
}

#[test]
fn defaults_choose_the_pipeline_of_their_target() {
    let mut settings = GaussianSplatBackendSettings::default();
    settings.apply_mobile_defaults();
    assert_eq!(settings.get_profile(), BACKEND_PROFILE_MOBILE);
    assert_eq!(
        settings.resolve_pipeline_for_metadata(&metadata_with(9)),
        PIPELINE_MOBILE_DIRECT
    );
    settings.apply_vr_safe_defaults();
    assert_eq!(
        settings.resolve_pipeline_for_metadata(&metadata_with(9)),
        PIPELINE_VR_SAFE_SPATIAL
    );
    settings.apply_desktop_defaults();
    assert_eq!(
        settings.resolve_pipeline_for_metadata(&metadata_with(9)),
        PIPELINE_DESKTOP_DIRECT
    );
    let exported = settings.export_settings();
    assert_eq!(dict_string(&exported, "profile").unwrap(), "automatic");
    assert_eq!(dict_string(&exported, "target_hint").unwrap(), "desktop");
    assert_eq!(dict_i32(&exported, "vr_point_budget"), Some(262_144));
    assert_eq!(dict_i32(&exported, "mobile_point_budget"), Some(131_072));
}

#[test]
fn unknown_modes_are_the_usual_ones() {
    let mut settings = GaussianSplatBackendSettings::default();
    assert_eq!(settings.get_vr_view_basis(), "head_center");
    assert_eq!(settings.get_splat_depth_mode(), "ray");
    assert_eq!(settings.splat_depth_mode_uniform(), 0);
    settings.set_vr_view_basis("per_eye");
    settings.set_splat_depth_mode("center");
    assert_eq!(settings.get_vr_view_basis(), "per_eye");
    assert_eq!(settings.splat_depth_mode_uniform(), 1);
    let copy = settings.duplicate();
    settings.set_vr_view_basis("sideways");
    settings.set_splat_depth_mode("");
    assert_eq!(settings.get_vr_view_basis(), "head_center");
    assert_eq!(settings.get_splat_depth_mode(), "ray");
    assert_eq!(copy.get_vr_view_basis(), "per_eye");
}

#[test]
fn assets_hold_what_was_decoded() {
    let mut asset = filled_asset(2);
    assert_eq!(asset.get_point_count(), 2);
    assert_eq!(asset.get_payload_byte_len(), 144);
    assert_eq!(
        asset.extract_point_positions(),
        vec![
            [bits(0.0), bits(1.0), bits(2.0)],
            [bits(18.0), bits(19.0), bits(20.0)],
        ]
    );
    assert_eq!(
        asset.extract_point_colors()[1],
        [bits(32.0), bits(33.0), bits(34.0), bits(35.0)]
    );
    assert_eq!(asset.payload_float_values().unwrap().len(), 36);
    assert!(asset.chunk_table().is_none());
    assert!(asset.pack_index().is_none());
    assert_eq!(asset.sh_degree_available(), 0);
    asset.set_point_count(-3);
    assert_eq!(asset.get_point_count(), 0);
    asset.set_payload(vec![1, 2, 3]);
    assert_eq!(asset.get_payload(), &vec![1, 2, 3]);
    asset.clear();
    assert_eq!(asset.get_payload_byte_len(), 0);
    assert!(asset.extract_point_positions().is_empty());
}

#[test]
fn assets_without_points_are_placeholders() {
    let mut metadata = metadata_with(7);
    metadata.fallback_mode = FALLBACK_COLOR_POINTS.to_string();
    metadata.compression = Some("spz".to_string());
    let mut asset = GaussianSplatAsset::default();
    assert_eq!(asset.get_fallback_mode(), "");
    asset.initialize_from_import(metadata.to_dictionary());
    assert_eq!(asset.get_payload_layout(), PAYLOAD_LAYOUT_V1);
    assert_eq!(asset.get_point_count(), 7);
    assert_eq!(
        asset.get_payload(),
        b"layout=gsplat.import.placeholder.v1; points=7; fallback=color_points"
    );
    assert!(asset.has_point_fallback());
    assert!(asset.has_compression());
    assert!(asset.payload_float_values().is_none());
    assert!(asset.extract_point_colors().is_empty());
    let exported = asset.export_import_metadata();
    assert_eq!(dict_i32(&exported, "point_count"), Some(7));
    assert_eq!(asset.get_source_extension(), metadata.source_extension);
    asset.set_local_aabb(unit_box());
    assert_eq!(asset.get_local_aabb(), unit_box());
}

#[test]
fn packets_wait_for_what_can_be_uploaded() {
    let mut packet = GaussianSplatRenderPacket::default();
    assert_eq!(packet.get_status(), RENDER_STATUS_EMPTY);
    assert_eq!(packet.get_pipeline(), PIPELINE_UNCONFIGURED);
    packet.prepare_from_asset(&filled_asset(3), PIPELINE_DESKTOP_DIRECT, 8);
    assert_eq!(packet.get_status(), RENDER_STATUS_PENDING_UPLOAD);
    assert_eq!(packet.get_upload_format(), RENDER_UPLOAD_INTERLEAVED_FLOAT32);
    assert!(packet.is_upload_supported());
    assert_eq!(packet.get_revision(), 8);
    assert_eq!(packet.get_point_count(), 3);
    assert_eq!(packet.get_payload_byte_len(), 216);
    assert_eq!(packet.get_local_aabb(), unit_box());
    let exported = packet.export_packet();
    assert_eq!(dict_string(&exported, "pipeline").unwrap(), PIPELINE_DESKTOP_DIRECT);
    assert_eq!(dict_bool(&exported, "cpu_mesh_expansion_allowed"), Some(false));
    let mut placeholder = GaussianSplatAsset::default();
    placeholder.initialize_from_import(metadata_with(3).to_dictionary());
    packet.prepare_from_asset(&placeholder, PIPELINE_DESKTOP_DIRECT, 9);
    assert_eq!(packet.get_upload_format(), RENDER_UPLOAD_UNSUPPORTED);
    assert_eq!(packet.get_status(), RENDER_UPLOAD_UNSUPPORTED);
    assert!(!packet.is_upload_supported());
    packet.clear();
    assert_eq!(packet.get_status(), RENDER_STATUS_EMPTY);
    assert_eq!(packet.get_payload_layout(), "");
}

#[test]
fn uploads_follow_each_other_without_a_gap() {
    let mut manager = GaussianSplatRenderManager::default();
    assert_eq!(manager.get_max_upload_chunk_bytes(), DEFAULT_UPLOAD_CHUNK_BYTES);
    manager.set_max_upload_chunk_bytes(1);
    assert_eq!(manager.get_max_upload_chunk_bytes(), MIN_UPLOAD_CHUNK_BYTES);
    let mut packet = GaussianSplatRenderPacket::default();
    packet.prepare_from_asset(&filled_asset(120), PIPELINE_DESKTOP_DIRECT, 1);
    assert_eq!(manager.register_packet(None), 0);
    assert_eq!(manager.register_packet(Some(GaussianSplatRenderPacket::default())), 0);
    assert_eq!(manager.register_packet(Some(unsupported_packet())), 1);
    assert_eq!(manager.register_packet(Some(packet)), 2);
    let plan = manager.export_upload_plan();
    let steps: Vec<(i32, i32, i32)> = plan
        .iter()
        .map(|step| match step {
            Variant::Dict(step) => (
                dict_i32(step, "handle").unwrap(),
                dict_i32(step, "byte_offset").unwrap(),
                dict_i32(step, "byte_len").unwrap(),
            ),
            _ => panic!("not a dictionary"),
        })
        .collect();
    assert_eq!(steps, vec![(2, 0, 4096), (2, 4096, 4096), (2, 8192, 448)]);
    assert!(manager.totals_fit());
    let stats = manager.export_stats();
    assert_eq!(dict_i32(&stats, "packet_count"), Some(2));
    assert_eq!(dict_i32(&stats, "pending_upload_count"), Some(1));
    assert_eq!(dict_i32(&stats, "unsupported_count"), Some(1));
    assert_eq!(dict_i32(&stats, "total_point_count"), Some(123));
    assert_eq!(dict_i32(&stats, "total_payload_byte_len"), Some(8640 + 56));
    assert_eq!(dict_string(&stats, "backend_status").unwrap(), "staging_only");
}

#[test]
fn packets_are_known_by_their_handles() {
    let mut manager = GaussianSplatRenderManager::default();
    for handle in 1..4 {
        assert_eq!(
            manager.register_packet(Some(unsupported_packet())),
            handle
        );
    }
    assert!(manager.unregister_packet(2));
    assert!(!manager.unregister_packet(2));
    assert_eq!(manager.get_packet_count(), 2);
    assert_eq!(
        manager.register_packet(Some(unsupported_packet())),
        4
    );
    manager.clear();
    assert_eq!(manager.get_packet_count(), 0);
    assert!(!manager.unregister_packet(4));
}

#[test]
fn dictionaries_keep_one_value_per_key() {
    let mut dict = Dictionary::new();
    dict.set("a", Variant::Int(1));
    dict.set("b", Variant::Text("x".to_string()));
    dict.set("a", Variant::Int(2));
    assert_eq!(dict.entries.len(), 2);
    assert_eq!(dict_i32(&dict, "a"), Some(2));
    assert_eq!(dict_string(&dict, "b").unwrap(), "x");
    assert!(dict_string(&dict, "a").is_none());
    assert!(!dict.contains_key("c"));
    let copy = dict.duplicate();
    dict.set("a", Variant::Nil);
    assert_eq!(dict_i32(&copy, "a"), Some(2));
}
