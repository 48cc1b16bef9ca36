use godot_gsplat::asset::GaussianSplatAsset;
use godot_gsplat::backend::GaussianSplatBackendSettings;
use godot_gsplat::cloud_settings::GaussianSplatCloudSettings;
use godot_gsplat::floats::F32;
use godot_gsplat::import_state::ImportedSplatMetadata;
use godot_gsplat::node::profile::{xr_adaptive_budget, ProfileOverrides, RenderProfile};
use godot_gsplat::node::state::{brief_of, AssetBrief, GaussianSplatNode3D};
use godot_gsplat::variant::{
    dict_bool, dict_dictionary, dict_i32, dict_string, Dictionary, Variant,
};

fn bits(value: f32) -> F32 {
    F32::from_bits(value.to_bits())
}

fn cloud(points: i32) -> AssetBrief {
    let mut metadata = ImportedSplatMetadata::default();
    metadata.point_count = points;
    let mut asset = GaussianSplatAsset::default();
    asset.initialize_from_import(metadata.to_dictionary());
    brief_of(&asset, 400_000)
}

fn bound(points: i32) -> GaussianSplatNode3D {
    let mut node = GaussianSplatNode3D::default();
    node.bind_asset(Some(cloud(points)));
    node
}

#[test]
fn bound_clouds_are_shown_in_full() {
    let mut node = GaussianSplatNode3D::default();
    assert!(!node.is_bound());
    assert_eq!(node.node_name(), "GaussianSplatNode3D");
    assert_eq!(node.resolve_backend_pipeline(), "unconfigured");
    node.bind_asset(Some(cloud(1000)));
    assert!(node.is_bound() && node.has_asset());
    assert_eq!(node.get_preview_max_splats(), 1000);
    assert_eq!(node.get_imported_point_count(), 1000);
    assert_eq!(node.get_backend_revision(), 1);
    assert_eq!(node.resolve_backend_pipeline(), "desktop_direct");
    assert!(node.node_name().starts_with("GaussianSplatNode3D (extension="));
    assert!(node.should_be_visible());
    node.set_runtime_visible(false);
    assert!(!node.should_be_visible() && !node.is_runtime_visible());
    node.bind_asset(None);
    assert!(!node.is_bound());
    assert_eq!(node.get_imported_point_count(), 0);
    assert_eq!(node.profile_hint, "asset");
}

#[test]
fn letting_go_leaves_what_is_rendered() {
    let mut node = bound(10);
    node.unbind_asset();
    assert!(!node.has_asset() && !node.is_bound());
    assert!(node.asset_ready);
    let mut fresh = GaussianSplatNode3D::default();
    assert!(!fresh.should_be_visible());
    fresh.adopt_serialized_render();
    assert!(fresh.should_be_visible());
}

#[test]
fn shown_splats_stay_within_the_cloud() {
    let mut node = bound(100);
    node.set_preview_max_splats(40);
    assert_eq!(node.get_preview_max_splats(), 40);
    node.set_preview_max_splats(i32::MAX);
    assert_eq!(node.get_preview_max_splats(), 100);
    node.set_preview_max_splats(-1);
    assert_eq!(node.get_preview_max_splats(), 0);
    node.show_all_preview_splats();
    assert_eq!(node.get_preview_max_splats(), 100);
    node.set_preview_max_splats(1);
    node.set_show_all_preview_splats_action(false);
    assert_eq!(node.get_preview_max_splats(), 1);
    node.set_show_all_preview_splats_action(true);
    assert_eq!(node.get_preview_max_splats(), 100);
    assert!(!node.get_show_all_preview_splats_action());
    node.bind_asset(Some(cloud(60)));
    assert_eq!(node.get_preview_max_splats(), 60);
}

#[test]
fn profiles_are_known_by_number() {
    for index in 0..5 {
        assert_eq!(RenderProfile::from_index(index).unwrap().to_index(), index);
    }
    assert_eq!(RenderProfile::from_index(5), None);
    assert_eq!(RenderProfile::from_index(-1), None);
    assert!(RenderProfile::Custom.settings().is_none());
    let xr = RenderProfile::Xr.settings().unwrap();
    assert_eq!((xr.target_hint, xr.budget, xr.sh_degree), ("vr_safe", -1, 1));
    assert_eq!((xr.vr_view_basis, xr.splat_depth_mode), ("head_center", "center"));
}

#[test]
fn presets_limit_every_cloud() {
    let mut node = bound(2_000_000);
    node.set_render_profile(RenderProfile::Low);
    assert_eq!(node.get_preview_max_splats(), 150_000);
    assert_eq!(node.get_sh_degree(), 0);
    assert_eq!(node.resolve_backend_pipeline(), "vr_safe_spatial");
    node.set_render_profile(RenderProfile::Middle);
    assert_eq!(node.get_preview_max_splats(), 500_000);
    assert_eq!(node.get_sh_degree(), 1);
    assert_eq!(node.resolve_backend_pipeline(), "mobile_direct");
    node.set_render_profile(RenderProfile::High);
    assert_eq!(node.get_preview_max_splats(), 2_000_000);
    assert_eq!(node.get_sh_degree(), 3);
    node.set_render_profile(RenderProfile::Xr);
    assert_eq!(node.get_preview_max_splats(), 400_000);
    let backend = node.get_backend_settings().unwrap();
    assert_eq!(backend.get_splat_depth_mode(), "center");
    node.bind_asset(Some(cloud(300_000)));
    assert_eq!(node.get_preview_max_splats(), 300_000);
    node.bind_asset(Some(cloud(900_000)));
    assert_eq!(node.get_preview_max_splats(), 400_000);
    assert_eq!(node.get_render_profile(), RenderProfile::Xr);
}

#[test]
fn edits_end_the_preset() {
    let mut node = bound(1_000_000);
    node.set_render_profile(RenderProfile::Low);
    node.set_sh_degree(2);
    assert_eq!(node.get_render_profile(), RenderProfile::Custom);
    node.bind_asset(Some(cloud(140_000)));
    assert_eq!(node.get_preview_max_splats(), 140_000);
    assert_eq!(node.get_sh_degree(), 2);
    node.set_render_profile(RenderProfile::Middle);
    node.set_render_profile(RenderProfile::Custom);
    node.bind_asset(Some(cloud(700_000)));
    assert_eq!(node.get_preview_max_splats(), 140_000);
}

#[test]
fn profiles_wait_for_a_cloud() {
    let mut node = GaussianSplatNode3D::default();
    let mut settings = Dictionary::new();
    settings.set("budget", Variant::Int(50));
    settings.set("target_hint", Variant::Text("mobile".to_string()));
    node.apply_profile_settings(&settings);
    assert_eq!(node.resolve_backend_pipeline(), "mobile_direct");
    assert_eq!(node.get_sh_degree(), 3);
    node.bind_asset(Some(cloud(1000)));
    assert_eq!(node.get_preview_max_splats(), 50);
    assert_eq!(node.get_sh_degree(), 3);
    node.bind_asset(Some(cloud(30)));
    assert_eq!(node.get_preview_max_splats(), 30);
}

#[test]
fn settings_dictionaries_give_everything_back() {
    let node = bound(1000);
    let dict = node.get_profile_settings(RenderProfile::Middle);
    let given = ProfileOverrides::from_dictionary(&dict);
    assert_eq!(given.target_hint.as_deref(), Some("mobile"));
    assert_eq!(given.budget, Some(500_000));
    assert_eq!(given.sh_degree, Some(1));
    assert_eq!(given.vr_view_basis.as_deref(), Some("head_center"));
    assert_eq!(given.splat_depth_mode.as_deref(), Some("ray"));
    let current = node.get_profile_settings(RenderProfile::Custom);
    assert_eq!(dict_i32(&current, "budget"), Some(1000));
    assert_eq!(dict_string(&current, "target_hint").unwrap(), "desktop");
    let none = ProfileOverrides::from_dictionary(&Dictionary::new());
    assert!(none.budget.is_none() && none.target_hint.is_none());
}

#[test]
fn headset_budgets_grow_with_the_cloud() {
    assert_eq!(xr_adaptive_budget(bits(1.0), 555), 300_000);
    assert_eq!(xr_adaptive_budget(bits(2.0), 555), 300_000);
    assert_eq!(xr_adaptive_budget(bits(30.0), 555), 800_000);
    assert_eq!(xr_adaptive_budget(bits(99.0), 555), 800_000);
    assert_eq!(xr_adaptive_budget(bits(10.0), 555_555), 555_555);
    assert_eq!(xr_adaptive_budget(bits(10.0), 1), 300_000);
    assert_eq!(xr_adaptive_budget(bits(f32::NAN), 1), 300_000);
}

#[test]
fn changes_are_counted() {
    let mut node = GaussianSplatNode3D::default();
    node.bind_cloud_settings(None);
    assert_eq!(
        node.get_cloud_settings(),
        Some(GaussianSplatCloudSettings::default())
    );
    assert_eq!(node.profile_hint, "cloud_settings");
    node.bind_backend_settings(Some(GaussianSplatBackendSettings::default()));
    assert_eq!(node.profile_hint, "desktop_direct");
    node.set_preview_max_splat_radius(bits(0.5));
    node.set_preview_scale_multiplier(bits(2.0));
    assert_eq!(node.get_preview_max_splat_radius(), bits(0.5));
    assert_eq!(node.get_preview_scale_multiplier(), bits(2.0));
    let mut transform = node.get_imported_transform();
    assert_eq!(transform[0], bits(1.0));
    transform[9] = bits(7.0);
    node.set_imported_transform(transform);
    assert_eq!(node.get_imported_transform(), transform);
    assert_eq!(node.get_backend_revision(), 5);
    node.revision = i64::MAX;
    node.bind_cloud_settings(None);
    assert_eq!(node.get_backend_revision(), i64::MIN);
    assert!(!node.set_source_gltf(""));
    assert!(node.set_source_gltf("res://cloud.glb"));
    assert_eq!(node.get_source_gltf(), "res://cloud.glb");
    assert!(!node.is_pack_source());
    node.set_source_gltf("user://cloud.GSplatPack");
    assert!(node.is_pack_source());
    node.set_imported_point_count(-4);
    assert_eq!(node.get_imported_point_count(), 0);
}

#[test]
fn nodes_describe_themselves() {
    let node = bound(12);
    let state = node.export_runtime_state();
    assert_eq!(dict_bool(&state, "is_bound"), Some(true));
    assert_eq!(dict_i32(&state, "asset_point_count"), Some(12));
    assert!(!state.contains_key("pipeline"));
    let model = node.export_backend_model();
    assert_eq!(dict_string(&model, "pipeline").unwrap(), "desktop_direct");
    assert_eq!(dict_i32(&model, "preview_max_splats"), Some(12));
    assert_eq!(dict_string(&model, "asset_fallback_mode").unwrap(), "");
    assert!(dict_dictionary(&model, "backend_settings").is_some());
    let metadata = dict_dictionary(&model, "metadata").unwrap();
    assert_eq!(dict_i32(metadata, "point_count"), Some(12));
    match model.get("preview_max_splat_radius").unwrap() {
        Variant::Float(radius) => assert_eq!(f64::from_bits(radius.bits), 0.02f32 as f64),
        _ => panic!("not a number"),
    }
    assert_eq!(
        dict_i32(&node.export_import_metadata(), "point_count"),
        Some(12)
    );
    assert!(node.get_metadata_summary().contains("points=12"));
}

#[test]
fn a_missing_key_keeps_the_current_value() {
    let mut node = bound(1000);
    node.set_render_profile(RenderProfile::High);
    let mut settings = GaussianSplatCloudSettings::default();
    settings.max_preview_splats = 7;
    settings.sh_degree = 1;
    node.bind_cloud_settings(Some(settings));
    let mut given = Dictionary::new();
    given.set("splat_depth_mode", Variant::Text("center".to_string()));
    node.apply_profile_settings(&given);
    assert_eq!(node.get_preview_max_splats(), 7);
    assert_eq!(node.get_sh_degree(), 1);
    let current = node.get_profile_settings(RenderProfile::Custom);
    assert_eq!(dict_string(&current, "splat_depth_mode").unwrap(), "center");
    node.bind_asset(Some(cloud(500)));
    assert_eq!(node.get_preview_max_splats(), 500);
    assert_eq!(node.get_sh_degree(), 3);
}

#[test]
fn edited_backend_settings_end_the_preset() {
    let edits: [fn(&mut GaussianSplatBackendSettings); 3] = [
        |settings| settings.set_splat_depth_mode("ray"),
        |settings| settings.set_vr_view_basis("per_eye"),
        |settings| settings.set_target_hint("desktop"),
    ];
    for edit in edits {
        let mut node = bound(1_000_000);
        node.set_render_profile(RenderProfile::Xr);
        let mut settings = node.get_backend_settings().unwrap().duplicate();
        edit(&mut settings);
        let (depth, basis) = (settings.get_splat_depth_mode(), settings.get_vr_view_basis());
        node.bind_backend_settings(Some(settings));
        assert_eq!(node.get_render_profile(), RenderProfile::Custom);
        assert_eq!(node.get_preview_max_splats(), 400_000);
        node.bind_asset(Some(cloud(350_000)));
        node.bind_asset(Some(cloud(900_000)));
        assert_eq!(node.get_preview_max_splats(), 350_000);
        let settings = node.get_backend_settings().unwrap();
        assert_eq!(settings.get_splat_depth_mode(), depth);
        assert_eq!(settings.get_vr_view_basis(), basis);
    }
    let mut node = bound(1_000_000);
    node.set_render_profile(RenderProfile::Xr);
    let revision = node.get_backend_revision();
    let mut settings = node.get_backend_settings().unwrap().duplicate();
    settings.set_splat_depth_mode("ray");
    node.adopt_backend_settings(settings);
    assert_eq!(node.get_render_profile(), RenderProfile::Custom);
    assert_eq!(node.get_backend_revision(), revision);
}

#[test]
fn other_backend_settings_keep_the_preset() {
    let mut node = bound(1_000_000);
    node.set_render_profile(RenderProfile::Xr);
    let mut settings = node.get_backend_settings().unwrap().duplicate();
    settings.set_allow_compositor(!settings.allow_compositor);
    node.bind_backend_settings(Some(settings));
    assert_eq!(node.get_render_profile(), RenderProfile::Xr);
    node.bind_asset(Some(cloud(350_000)));
    node.bind_asset(Some(cloud(900_000)));
    assert_eq!(node.get_preview_max_splats(), 400_000);
    let mut given = Dictionary::new();
    given.set("splat_depth_mode", Variant::Text("ray".to_string()));
    node.apply_profile_settings(&given);
    let settings = node.get_backend_settings().unwrap().duplicate();
    node.bind_backend_settings(Some(settings));
    assert_eq!(node.get_render_profile(), RenderProfile::Xr);
    node.bind_backend_settings(None);
    assert_eq!(node.get_render_profile(), RenderProfile::Custom);
}

#[test]
fn imports_tell_of_their_cloud() {
    let mut metadata = ImportedSplatMetadata::default();
    metadata.point_count = 77;
    let mut node = GaussianSplatNode3D::default();
    node.set_import_metadata(metadata.to_dictionary());
    assert!(node.is_bound() && !node.has_asset());
    assert_eq!(node.get_backend_revision(), 0);
    assert_eq!(dict_i32(&node.export_import_metadata(), "point_count"), Some(77));
    assert_eq!(node.get_metadata_summary(), metadata.summary());
    assert_eq!(
        node.node_name(),
        format!("GaussianSplatNode3D ({})", metadata.summary())
    );
    node.bind_asset(Some(cloud(5)));
    assert_eq!(dict_i32(&node.export_import_metadata(), "point_count"), Some(5));
    node.set_import_metadata(metadata.to_dictionary());
    assert_eq!(dict_i32(&node.export_import_metadata(), "point_count"), Some(77));
    node.unbind_asset();
    assert!(!node.is_bound());
    assert_eq!(dict_i32(&node.export_import_metadata(), "point_count"), Some(0));
    assert_eq!(node.node_name(), "GaussianSplatNode3D");
}
