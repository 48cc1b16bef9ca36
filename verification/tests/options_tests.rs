use godot_gsplat::floats::F32;
use godot_gsplat::import_options::{
    find_option, import_path_candidates, variant_to_f32, variant_to_i32, PreviewImportOptions,
    INTERNAL_OPTION_PREVIEW_MAX_SPLATS, OPTION_PREVIEW_MAX_SPLATS,
    OPTION_PREVIEW_MAX_SPLAT_RADIUS, OPTION_PREVIEW_SCALE_MULTIPLIER, PREVIEW_MAX_SPLATS_DEFAULT,
    SUBRESOURCES_KEY,
};
use godot_gsplat::node::profile::RenderProfile;
use godot_gsplat::node::state::GaussianSplatNode3D;
use godot_gsplat::scene_import_plugin::{
    general_preview_options, internal_option_update_view_required, internal_option_visibility,
    internal_preview_options, is_general_preview_option, is_internal_preview_option,
    is_node_like_category, option_visibility, read_options, should_add_options_for_path,
    GsplatScenePostImportPlugin, OptionDefault,
};
use godot_gsplat::variant::{single_variant, Dictionary, Variant};

fn bits(value: f32) -> F32 {
    F32::from_bits(value.to_bits())
}

fn float(value: f32) -> Variant {
    single_variant(bits(value))
}

fn dict(entries: Vec<(&str, Variant)>) -> Dictionary {
    let mut dict = Dictionary::new();
    for (key, value) in entries {
        dict.set(key, value);
    }
    dict
}

#[test]
fn options_are_offered_for_scene_files() {
    assert!(should_add_options_for_path("res://cloud.gltf"));
    assert!(should_add_options_for_path("res://Cloud.GLB"));
    assert!(should_add_options_for_path(""));
    assert!(!should_add_options_for_path("res://cloud.obj"));
    assert_eq!(
        option_visibility("res://cloud.glb", OPTION_PREVIEW_MAX_SPLATS),
        Some(true)
    );
    assert_eq!(
        option_visibility("res://cloud.obj", OPTION_PREVIEW_MAX_SPLATS),
        None
    );
    assert_eq!(option_visibility("res://cloud.glb", "nodes/root_name"), None);
}

#[test]
fn nodes_are_told_by_their_category() {
    assert!(is_node_like_category(0));
    assert!(is_node_like_category(1));
    assert!(is_node_like_category(6));
    for other in [-1, 2, 3, 4, 5, 7] {
        assert!(!is_node_like_category(other));
    }
    assert_eq!(
        internal_option_visibility(6, INTERNAL_OPTION_PREVIEW_MAX_SPLATS),
        Some(true)
    );
    assert_eq!(
        internal_option_visibility(2, INTERNAL_OPTION_PREVIEW_MAX_SPLATS),
        Some(false)
    );
    assert_eq!(internal_option_visibility(0, "import/skip_import"), None);
    assert!(internal_option_update_view_required(
        1,
        INTERNAL_OPTION_PREVIEW_MAX_SPLATS
    ));
    assert!(!internal_option_update_view_required(
        2,
        INTERNAL_OPTION_PREVIEW_MAX_SPLATS
    ));
    assert!(!internal_option_update_view_required(1, OPTION_PREVIEW_MAX_SPLATS));
}

#[test]
fn the_dialog_offers_three_options() {
    let general = general_preview_options();
    let internal = internal_preview_options();
    assert_eq!(general.len(), 3);
    for option in &general {
        assert!(is_general_preview_option(option.name));
        assert!(!is_internal_preview_option(option.name));
    }
    for option in &internal {
        assert!(is_internal_preview_option(option.name));
        assert!(!is_general_preview_option(option.name));
    }
    assert_eq!(general[0].default, OptionDefault::Int(i32::MAX));
    assert_eq!(general[1].default, OptionDefault::Float(bits(0.02)));
    assert_eq!(general[2].default, OptionDefault::Float(bits(1.0)));
    assert_eq!(internal[1].range, "0.001,1.0,0.001");
}

#[test]
fn values_of_another_kind_are_no_options() {
    assert_eq!(variant_to_i32(&Variant::Int(1 << 40)), Some(i32::MAX));
    assert_eq!(variant_to_i32(&Variant::Int(-1 << 40)), Some(i32::MIN));
    assert_eq!(variant_to_i32(&Variant::Int(-7)), Some(-7));
    assert_eq!(variant_to_i32(&float(3.0)), None);
    assert_eq!(variant_to_f32(&float(0.25)), Some(bits(0.25)));
    assert_eq!(variant_to_f32(&Variant::Int(1)), None);
    let read = read_options(&Variant::Nil, &float(0.5), &Variant::Nil);
    assert_eq!(
        read,
        PreviewImportOptions {
            max_splats: Some(PREVIEW_MAX_SPLATS_DEFAULT),
            max_splat_radius: Some(bits(0.5)),
            scale_multiplier: Some(bits(1.0)),
        }
    );
}

#[test]
fn options_are_found_at_any_depth() {
    let deep = Variant::Dict(dict(vec![
        ("a", Variant::List(vec![Variant::Nil, Variant::Dict(dict(vec![("x", Variant::Int(1))]))])),
        ("b", Variant::Dict(dict(vec![("x", Variant::Int(2))]))),
    ]));
    assert_eq!(variant_to_i32(find_option(&deep, "x").unwrap()), Some(1));
    let shallow = Variant::Dict(dict(vec![
        ("a", Variant::Dict(dict(vec![("x", Variant::Int(1))]))),
        ("x", Variant::Int(3)),
    ]));
    assert_eq!(variant_to_i32(find_option(&shallow, "x").unwrap()), Some(3));
    assert!(find_option(&deep, "y").is_none());
    assert!(find_option(&Variant::Int(1), "x").is_none());
}

#[test]
fn options_of_single_nodes_win() {
    let mut options = PreviewImportOptions {
        max_splats: Some(10),
        max_splat_radius: None,
        scale_multiplier: Some(bits(2.0)),
    };
    let subresources = Variant::Dict(dict(vec![(
        "nodes",
        Variant::Dict(dict(vec![
            (OPTION_PREVIEW_MAX_SPLATS, Variant::Int(20)),
            (INTERNAL_OPTION_PREVIEW_MAX_SPLATS, Variant::Int(30)),
            (OPTION_PREVIEW_MAX_SPLAT_RADIUS, float(0.25)),
        ])),
    )]));
    options.merge_subresources(&subresources);
    assert_eq!(
        options,
        PreviewImportOptions {
            max_splats: Some(30),
            max_splat_radius: Some(bits(0.25)),
            scale_multiplier: Some(bits(2.0)),
        }
    );
}

#[test]
fn saved_files_and_the_dialog_agree() {
    let subresources = dict(vec![(INTERNAL_OPTION_PREVIEW_MAX_SPLATS, Variant::Int(7))]);
    let params = dict(vec![
        (OPTION_PREVIEW_MAX_SPLATS, Variant::Int(5)),
        (OPTION_PREVIEW_MAX_SPLAT_RADIUS, float(0.5)),
        (OPTION_PREVIEW_SCALE_MULTIPLIER, float(4.0)),
        (SUBRESOURCES_KEY, Variant::Dict(subresources.duplicate())),
    ]);
    let saved = PreviewImportOptions::from_saved_import_file(&params).unwrap();
    let read = read_options(&Variant::Int(5), &float(0.5), &float(4.0));
    let mut plugin = GsplatScenePostImportPlugin::default();
    plugin.pre_process(read, &Variant::Dict(subresources));
    assert_eq!(plugin.cached_options, Some(saved));
    assert_eq!(saved.max_splats, Some(7));
    assert!(PreviewImportOptions::from_saved_import_file(&Dictionary::new()).is_none());
    assert!(PreviewImportOptions::default().is_empty());
}

#[test]
fn options_are_kept_for_one_import() {
    let read = read_options(&Variant::Int(1), &Variant::Nil, &Variant::Nil);
    let later = read_options(&Variant::Int(2), &Variant::Nil, &Variant::Nil);
    let mut plugin = GsplatScenePostImportPlugin::default();
    assert_eq!(plugin.internal_process(0, later), Some(later));
    plugin.pre_process(read, &Variant::Nil);
    assert_eq!(plugin.internal_process(0, later), Some(read));
    assert_eq!(plugin.internal_process(2, later), None);
    assert_eq!(plugin.post_process(later), read);
    assert_eq!(plugin.post_process(later), later);
}

#[test]
fn given_options_are_applied_to_a_node() {
    let mut node = GaussianSplatNode3D::default();
    node.set_render_profile(RenderProfile::Low);
    let radius = node.get_preview_max_splat_radius();
    PreviewImportOptions::default().apply_to_node(&mut node);
    assert_eq!(node.get_render_profile(), RenderProfile::Low);
    let options = PreviewImportOptions {
        max_splats: Some(5),
        max_splat_radius: None,
        scale_multiplier: Some(bits(0.0)),
    };
    options.apply_to_node(&mut node);
    assert_eq!(node.get_render_profile(), RenderProfile::Custom);
    assert_eq!(node.get_preview_max_splat_radius(), radius);
    assert_eq!(node.get_preview_scale_multiplier(), bits(0.01));
}

#[test]
fn import_files_lie_beside_the_scene() {
    assert_eq!(
        import_path_candidates("res://scenes", "cloud.glb"),
        vec!["res://scenes/cloud.glb.import", "cloud.glb.import"]
    );
    assert_eq!(
        import_path_candidates("res://", "cloud"),
        vec![
            "res://cloud.gltf.import",
            "res://cloud.glb.import",
            "cloud.import",
        ]
    );
    assert_eq!(
        import_path_candidates("", "a.gltf"),
        vec!["a.gltf.import", "a.gltf.import"]
    );
}
