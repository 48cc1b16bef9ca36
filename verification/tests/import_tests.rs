use godot_gsplat::engine::AccessorType;
use godot_gsplat::floats::F32;
use godot_gsplat::gltf_extension::{
    build_asset, import_post_parse, import_preflight, metadata_from_state, supported_extensions,
};
use godot_gsplat::extents::LocalBox;
use godot_gsplat::import_state::decode::{
    accessor_component_count, decode_first_splat, decode_float_accessor, decode_splat_payload,
    primitive_dict_for_indices, BufferView, DecodeError, SceneError,
};
use godot_gsplat::import_state::inspect::{
    accessor_count, inspect_gsplat_nodes, Accessor, Attribute, MissingMesh,
};
use godot_gsplat::import_state::{
    ImportedSplatMetadata, BASE_EXTENSION, COMPRESSION_EXTENSION, DEFAULT_PROJECTION,
    FALLBACK_COLOR_POINTS, FALLBACK_NONE, PAYLOAD_LAYOUT_FLOAT32_V1, PAYLOAD_LAYOUT_V1,
};
use godot_gsplat::variant::{dict_i32, dict_strings, Dictionary, Double, Variant};
use godot_gsplat::words::bytes_to_floats;

const FLOAT: i32 = 5126;

fn text(value: &str) -> Variant {
    Variant::Text(value.to_string())
}

fn float(value: f64) -> Variant {
    Variant::Float(Double {
        bits: value.to_bits(),
        single: F32::from_bits((value as f32).to_bits()),
    })
}

fn dict(entries: Vec<(&str, Variant)>) -> Dictionary {
    let mut dict = Dictionary::new();
    for (key, value) in entries {
        dict.set(key, value);
    }
    dict
}

fn extension() -> Variant {
    Variant::Dict(dict(vec![
        ("kernel", text("ellipse")),
        ("colorSpace", text("srgb_rec709_display")),
    ]))
}

fn attributes(names: &[Attribute]) -> Variant {
    let mut attributes = Dictionary::new();
    for (index, attribute) in names.iter().enumerate() {
        attributes.set(attribute.name(), Variant::Int(index as i64));
    }
    Variant::Dict(attributes)
}

const REQUIRED: [Attribute; 5] = [
    Attribute::Position,
    Attribute::Rotation,
    Attribute::Scale,
    Attribute::Opacity,
    Attribute::Sh0,
];

fn primitive(names: &[Attribute]) -> Variant {
    Variant::Dict(dict(vec![
        ("mode", Variant::Int(0)),
        ("attributes", attributes(names)),
        (
            "extensions",
            Variant::Dict(dict(vec![(BASE_EXTENSION, extension())])),
        ),
    ]))
}

fn document(primitives: Vec<Variant>) -> Dictionary {
    dict(vec![
        (
            "nodes",
            Variant::List(vec![Variant::Dict(dict(vec![("mesh", float(0.0))]))]),
        ),
        (
            "meshes",
            Variant::List(vec![Variant::Dict(dict(vec![(
                "primitives",
                Variant::List(primitives),
            )]))]),
        ),
    ])
}

fn accessor(accessor_type: i32, count: i64, buffer_view: i32) -> Accessor {
    Accessor {
        count,
        sparse_count: 0,
        accessor_type,
        component_type: FLOAT,
        normalized: false,
        buffer_view,
        byte_offset: 0,
    }
}

fn required_accessors(count: i64) -> Vec<Accessor> {
    vec![
        accessor(2, count, 0),
        accessor(3, count, 1),
        accessor(2, count, 2),
        accessor(0, count, 3),
        accessor(2, count, 4),
    ]
}

fn view(values: &[f32]) -> BufferView {
    BufferView {
        byte_stride: 0,
        data: values.iter().flat_map(|value| value.to_le_bytes()).collect(),
    }
}

fn required_views() -> Vec<BufferView> {
    vec![
        view(&[1.0, 2.0, 3.0, -4.0, 5.0, 6.0]),
        view(&[0.0, 0.0, 0.0, 1.0, 0.5, 0.5, 0.5, 0.5]),
        view(&[0.1, 0.2, 0.3, 0.4, 0.5, 0.6]),
        view(&[0.7, 0.8]),
        view(&[10.0, 11.0, 12.0, 13.0, 14.0, 15.0]),
    ]
}

fn numbers(bytes: &[u8]) -> Vec<f32> {
    bytes_to_floats(bytes)
        .iter()
        .map(|value| f32::from_bits(value.to_bits()))
        .collect()
}

#[test]
fn extension_properties_are_read() {
    let mut nested = Dictionary::new();
    nested.set(COMPRESSION_EXTENSION, Variant::Dict(Dictionary::new()));
    let extensions = dict(vec![(
        BASE_EXTENSION,
        Variant::Dict(dict(vec![
            ("kernel", text("ellipse")),
            ("colorSpace", text("lin_rec709_display")),
            ("sortingMethod", text("zDepth")),
            ("extensions", Variant::Dict(nested)),
        ])),
    )]);
    let metadata = ImportedSplatMetadata::from_extensions(BASE_EXTENSION, extensions);
    assert!(metadata.is_valid());
    assert_eq!(metadata.kernel.as_deref(), Some("ellipse"));
    assert_eq!(metadata.color_space.as_deref(), Some("lin_rec709_display"));
    assert_eq!(metadata.projection, DEFAULT_PROJECTION);
    assert_eq!(metadata.sorting_method, "zDepth");
    assert_eq!(metadata.compression.as_deref(), Some(COMPRESSION_EXTENSION));
    assert_eq!(metadata.raw_extensions.entries.len(), 1);
    assert_eq!(
        metadata.summary(),
        "extension=KHR_gaussian_splatting; node=-; mesh=-; primitive=-; points=0; \
         kernel=ellipse; color_space=lin_rec709_display; projection=perspective; sorting=zDepth; \
         compression=KHR_gaussian_splatting_compression_spz_2; validity=valid"
    );
}

#[test]
fn missing_properties_are_errors() {
    let metadata = ImportedSplatMetadata::from_extensions(
        BASE_EXTENSION,
        dict(vec![(BASE_EXTENSION, Variant::Dict(Dictionary::new()))]),
    );
    assert!(!metadata.is_valid());
    assert_eq!(
        metadata.validation_errors,
        vec![
            "Gaussian splat extension is missing required property kernel.",
            "Gaussian splat extension is missing required property colorSpace.",
        ]
    );
    assert!(metadata.summary().ends_with("validity=invalid"));
}

#[test]
fn metadata_survives_a_dictionary() {
    let mut metadata = ImportedSplatMetadata::from_extensions(
        BASE_EXTENSION,
        dict(vec![(BASE_EXTENSION, extension())]),
    );
    metadata.node_index = Some(3);
    metadata.mesh_index = Some(-1);
    metadata.point_count = i32::MAX;
    metadata.has_color_fallback = true;
    metadata.fallback_mode = FALLBACK_COLOR_POINTS.to_string();
    metadata.validation_warnings.push("careful".to_string());
    let again = ImportedSplatMetadata::from_dictionary(metadata.to_dictionary());
    assert_eq!(again.summary(), metadata.summary());
    assert_eq!(again.node_index, Some(3));
    assert_eq!(again.mesh_index, Some(-1));
    assert_eq!(again.primitive_index, None);
    assert_eq!(again.compression, None);
    assert!(again.has_color_fallback);
    assert_eq!(again.fallback_mode, FALLBACK_COLOR_POINTS);
    assert_eq!(again.validation_warnings, vec!["careful"]);
    assert!(again.raw_extensions.contains_key(BASE_EXTENSION));

    let empty = ImportedSplatMetadata::from_dictionary(Dictionary::new());
    assert_eq!(empty.source_extension, BASE_EXTENSION);
    assert_eq!(empty.fallback_mode, FALLBACK_NONE);
    assert_eq!(empty.point_count, 0);
    assert!(empty.is_valid());
}

#[test]
fn whole_numbers_are_indices() {
    let indices = dict(vec![
        ("int", Variant::Int(7)),
        ("wide", Variant::Int(1 << 31)),
        ("whole", float(-3.0)),
        ("part", float(2.5)),
        ("top", float(2147483647.0)),
        ("over", float(2147483648.0)),
        ("infinite", float(f64::INFINITY)),
        ("nan", float(f64::NAN)),
        ("text", text("7")),
    ]);
    assert_eq!(dict_i32(&indices, "int"), Some(7));
    assert_eq!(dict_i32(&indices, "wide"), None);
    assert_eq!(dict_i32(&indices, "whole"), Some(-3));
    assert_eq!(dict_i32(&indices, "part"), None);
    assert_eq!(dict_i32(&indices, "top"), Some(i32::MAX));
    assert_eq!(dict_i32(&indices, "over"), None);
    assert_eq!(dict_i32(&indices, "infinite"), None);
    assert_eq!(dict_i32(&indices, "nan"), None);
    assert_eq!(dict_i32(&indices, "text"), None);
    assert_eq!(dict_i32(&indices, "absent"), None);
}

#[test]
fn sound_primitives_are_found() {
    let mut names = REQUIRED.to_vec();
    names.push(Attribute::Color);
    let json = document(vec![
        Variant::Nil,
        Variant::Dict(Dictionary::new()),
        primitive(&names),
    ]);
    let mut accessors = required_accessors(2);
    accessors.push(accessor(3, 2, 5));
    let found = inspect_gsplat_nodes(&json, &accessors).unwrap();
    assert_eq!(found.len(), 1);
    assert!(found[0].is_valid());
    assert_eq!(found[0].node_index, Some(0));
    assert_eq!(found[0].mesh_index, Some(0));
    assert_eq!(found[0].primitive_index, Some(2));
    assert_eq!(found[0].point_count, 2);
    assert!(found[0].has_color_fallback);
    assert_eq!(found[0].fallback_mode, FALLBACK_COLOR_POINTS);
    assert!(found[0].validation_warnings.is_empty());
}

#[test]
fn unsound_primitives_are_reported() {
    let mut triangles = dict(vec![
        ("attributes", attributes(&[Attribute::Position, Attribute::Rotation])),
        (
            "extensions",
            Variant::Dict(dict(vec![(BASE_EXTENSION, extension())])),
        ),
    ]);
    let accessors = vec![accessor(2, 2, 0), accessor(3, 3, 1)];
    let json = document(vec![Variant::Dict(triangles.duplicate())]);
    let found = inspect_gsplat_nodes(&json, &accessors).unwrap();
    assert_eq!(
        found[0].validation_errors,
        vec![
            "Gaussian splat primitives must use POINTS mode.",
            "Missing required attribute KHR_gaussian_splatting:SCALE.",
            "Missing required attribute KHR_gaussian_splatting:OPACITY.",
            "Missing required attribute KHR_gaussian_splatting:SH_DEGREE_0_COEF_0.",
            "Accessor count mismatch between POSITION and KHR_gaussian_splatting:ROTATION.",
        ]
    );
    triangles.set("attributes", Variant::Nil);
    triangles.set("mode", Variant::Int(0));
    let json = document(vec![Variant::Dict(triangles)]);
    let found = inspect_gsplat_nodes(&json, &accessors).unwrap();
    assert_eq!(
        found[0].validation_errors,
        vec!["Gaussian splat primitive is missing the attributes dictionary."]
    );
    assert_eq!(accessor_count(&accessors, 1), Some(3));
    assert_eq!(accessor_count(&accessors, 2), None);
    assert_eq!(accessor_count(&accessors, -1), None);
}

#[test]
fn several_primitives_of_a_node_are_warned_of() {
    let json = document(vec![primitive(&REQUIRED), primitive(&REQUIRED)]);
    let found = inspect_gsplat_nodes(&json, &required_accessors(1)).unwrap();
    assert_eq!(found.len(), 2);
    for metadata in &found {
        assert_eq!(metadata.validation_warnings.len(), 1);
        assert!(metadata.validation_warnings[0].starts_with("Multiple gaussian splat primitives"));
        assert!(metadata.is_valid());
    }
}

#[test]
fn nodes_must_name_meshes_that_exist() {
    let json = dict(vec![(
        "nodes",
        Variant::List(vec![
            Variant::Dict(Dictionary::new()),
            Variant::Dict(dict(vec![("mesh", Variant::Int(4))])),
        ]),
    )]);
    let error = inspect_gsplat_nodes(&json, &vec![]).unwrap_err();
    assert_eq!(
        error,
        MissingMesh {
            node_index: 1,
            mesh_index: 4
        }
    );
    assert_eq!(error.message(), "Node 1 references missing mesh 4.");
    assert!(inspect_gsplat_nodes(&Dictionary::new(), &vec![])
        .unwrap()
        .is_empty());
}

#[test]
fn payloads_interleave_the_attributes() {
    let json = document(vec![primitive(&REQUIRED)]);
    let accessors = required_accessors(2);
    let views = required_views();
    let metadata = inspect_gsplat_nodes(&json, &accessors).unwrap().remove(0);
    let decoded = decode_splat_payload(&json, &accessors, &views, &metadata).unwrap();
    assert_eq!(decoded.point_count, 2);
    assert_eq!(decoded.payload_layout, PAYLOAD_LAYOUT_FLOAT32_V1);
    assert_eq!(
        numbers(&decoded.payload),
        vec![
            1.0, 2.0, 3.0, 0.0, 0.0, 0.0, 1.0, 0.1, 0.2, 0.3, 0.7, 10.0, 11.0, 12.0, 1.0, 1.0,
            1.0, 1.0, -4.0, 5.0, 6.0, 0.5, 0.5, 0.5, 0.5, 0.4, 0.5, 0.6, 0.8, 13.0, 14.0, 15.0,
            1.0, 1.0, 1.0, 1.0,
        ]
    );
    let bits = |value: f32| F32::from_bits(value.to_bits());
    assert_eq!(decoded.center_min, [bits(-4.0), bits(2.0), bits(3.0)]);
    assert_eq!(decoded.center_max, [bits(1.0), bits(5.0), bits(6.0)]);
    assert!(decoded.chunk_table.is_none());
    assert_eq!(decoded.sh_degree_available, 0);
}

#[test]
fn colors_of_three_parts_are_opaque() {
    let mut names = REQUIRED.to_vec();
    names.push(Attribute::Color);
    let json = document(vec![primitive(&names)]);
    let mut accessors = required_accessors(1);
    accessors.push(accessor(2, 1, 5));
    let mut views = required_views();
    views.push(view(&[0.25, 0.5, 0.75]));
    let metadata = inspect_gsplat_nodes(&json, &accessors).unwrap().remove(0);
    let decoded = decode_splat_payload(&json, &accessors, &views, &metadata).unwrap();
    assert_eq!(&numbers(&decoded.payload)[14..], &[0.25, 0.5, 0.75, 1.0]);
    accessors[5].accessor_type = 3;
    views[5] = view(&[0.25, 0.5, 0.75, 0.125]);
    let decoded = decode_splat_payload(&json, &accessors, &views, &metadata).unwrap();
    assert_eq!(&numbers(&decoded.payload)[14..], &[0.25, 0.5, 0.75, 0.125]);
}

#[test]
fn accessors_that_cannot_be_read_are_refused() {
    let views = vec![view(&[1.0, 2.0, 3.0, 4.0, 5.0, 6.0])];
    let sound = accessor(2, 2, 0);
    let attempt = |accessor: Accessor| {
        decode_float_accessor(
            &vec![accessor],
            &views,
            0,
            Attribute::Position,
            &[AccessorType::Vec3],
        )
    };
    let refusal = |accessor: Accessor| attempt(accessor).unwrap_err().message();
    let values = attempt(sound).unwrap();
    assert_eq!(f32::from_bits(values[5].to_bits()), 6.0);

    let missing = decode_float_accessor(
        &vec![],
        &views,
        2,
        Attribute::Position,
        &[AccessorType::Vec3],
    );
    assert_eq!(
        missing.unwrap_err().message(),
        "Attribute POSITION references missing accessor 2."
    );
    let mut changed = sound;
    changed.sparse_count = 1;
    assert_eq!(
        refusal(changed),
        "Attribute POSITION uses sparse accessor data, which is not supported yet."
    );
    let mut changed = sound;
    changed.accessor_type = 6;
    assert_eq!(
        refusal(changed),
        "Attribute POSITION uses unexpected accessor type MAT4."
    );
    let mut changed = sound;
    changed.accessor_type = 7;
    assert_eq!(
        attempt(changed),
        Err(DecodeError::UnexpectedType {
            attribute: Attribute::Position,
            accessor_type: 7
        })
    );
    let mut changed = sound;
    changed.component_type = 5121;
    assert_eq!(
        refusal(changed),
        "Attribute POSITION uses unsupported component type UNSIGNED_BYTE. \
         Only float accessors are supported right now."
    );
    let mut changed = sound;
    changed.normalized = true;
    assert_eq!(
        refusal(changed),
        "Attribute POSITION is normalized. Normalized accessors are not supported yet."
    );
    let mut changed = sound;
    changed.buffer_view = -1;
    assert_eq!(
        refusal(changed),
        "Attribute POSITION accessor 0 has no buffer view."
    );
    let mut changed = sound;
    changed.buffer_view = 1;
    assert_eq!(
        refusal(changed),
        "Attribute POSITION references missing buffer view 1."
    );
    let mut changed = sound;
    changed.byte_offset = -4;
    assert_eq!(
        refusal(changed),
        "Attribute POSITION has invalid byte offset -4."
    );
    let mut changed = sound;
    changed.byte_offset = 4;
    assert_eq!(
        refusal(changed),
        "Attribute POSITION reads past the end of its buffer view."
    );
    let mut changed = sound;
    changed.byte_offset = i64::MAX;
    changed.count = i64::MAX;
    assert_eq!(
        refusal(changed),
        "Attribute POSITION byte range overflowed."
    );
    let narrow = vec![BufferView {
        byte_stride: 8,
        data: views[0].data.clone(),
    }];
    assert_eq!(
        decode_float_accessor(
            &vec![sound],
            &narrow,
            0,
            Attribute::Position,
            &[AccessorType::Vec3]
        )
        .unwrap_err()
        .message(),
        "Attribute POSITION byte stride 8 is smaller than element size 12."
    );
    assert_eq!(
        DecodeError::InvalidByteStride {
            attribute: Attribute::Color,
            byte_stride: 1 << 40
        }
        .message(),
        "Attribute COLOR_0 has invalid byte stride 1099511627776."
    );
}

#[test]
fn strides_skip_what_lies_between() {
    let views = vec![BufferView {
        byte_stride: 8,
        data: view(&[9.0, 1.0, -1.0, 2.0, -1.0]).data,
    }];
    let mut accessor = accessor(0, 2, 0);
    accessor.byte_offset = 4;
    let values = decode_float_accessor(
        &vec![accessor],
        &views,
        0,
        Attribute::Opacity,
        &[AccessorType::Scalar],
    )
    .unwrap();
    let values: Vec<f32> = values.iter().map(|v| f32::from_bits(v.to_bits())).collect();
    assert_eq!(values, vec![1.0, 2.0]);
    accessor.count = -5;
    let none = decode_float_accessor(
        &vec![accessor],
        &views,
        0,
        Attribute::Opacity,
        &[AccessorType::Scalar],
    );
    assert!(none.unwrap().is_empty());
    assert_eq!(accessor_component_count(AccessorType::Mat3), 9);
    assert_eq!(accessor_component_count(AccessorType::Vec2), 2);
}

#[test]
fn payloads_that_do_not_fit_together_are_refused() {
    let json = document(vec![primitive(&REQUIRED)]);
    let views = required_views();
    let accessors = required_accessors(2);
    let metadata = || inspect_gsplat_nodes(&json, &accessors).unwrap().remove(0);
    let refusal = |json: &Dictionary, accessors: &Vec<Accessor>, metadata: &ImportedSplatMetadata| {
        decode_splat_payload(json, accessors, &views, metadata)
            .map(|_| ())
            .unwrap_err()
    };
    let mut changed = metadata();
    changed.node_index = None;
    assert_eq!(
        refusal(&json, &accessors, &changed).message(),
        "Gaussian splat metadata is missing node index."
    );
    let mut changed = metadata();
    changed.mesh_index = None;
    assert_eq!(
        refusal(&json, &accessors, &changed).message(),
        "Gaussian splat node 0 is missing mesh index."
    );
    let mut changed = metadata();
    changed.primitive_index = None;
    assert_eq!(
        refusal(&json, &accessors, &changed).message(),
        "Gaussian splat node 0 is missing primitive index."
    );
    let mut uneven = accessors.clone();
    uneven[3].count = 1;
    assert_eq!(refusal(&json, &uneven, &metadata()), DecodeError::LengthMismatch);
    assert_eq!(
        refusal(&json, &required_accessors(0), &metadata()),
        DecodeError::NoPoints
    );
    let partial = document(vec![primitive(&REQUIRED[..2])]);
    assert_eq!(
        refusal(&partial, &accessors, &metadata()).message(),
        "Missing required attribute KHR_gaussian_splatting:SCALE."
    );
    let bare = document(vec![Variant::Dict(Dictionary::new())]);
    assert_eq!(
        refusal(&bare, &accessors, &metadata()).message(),
        "Gaussian splat primitive is missing attributes dictionary."
    );
}

#[test]
fn primitives_are_found_by_their_indices() {
    let json = document(vec![primitive(&REQUIRED)]);
    assert!(primitive_dict_for_indices(&json, 0, 0, 0)
        .unwrap()
        .contains_key("attributes"));
    let refusal = |json: &Dictionary, node: i32, mesh: i32, primitive: i32| {
        primitive_dict_for_indices(json, node, mesh, primitive)
            .map(|_| ())
            .unwrap_err()
            .message()
    };
    assert_eq!(
        refusal(&json, -1, 0, 0),
        "Gaussian splat node -1 is missing from glTF JSON."
    );
    assert_eq!(
        refusal(&json, 0, 1, 0),
        "Gaussian splat node 0 expected mesh 1, found 0."
    );
    assert_eq!(
        refusal(&json, 0, 0, 5),
        "Gaussian splat primitive 5 is missing from mesh 0."
    );
    let nodes = |mesh: Variant| {
        Variant::List(vec![
            Variant::Dict(dict(vec![("mesh", mesh)])),
            Variant::Dict(Dictionary::new()),
        ])
    };
    let no_meshes = dict(vec![("nodes", nodes(Variant::Int(0)))]);
    assert_eq!(
        refusal(&no_meshes, 1, 0, 0),
        "Gaussian splat node 1 does not reference a mesh."
    );
    assert_eq!(
        refusal(&no_meshes, 0, 0, 0),
        "Gaussian splat mesh 0 is missing from glTF JSON."
    );
    let empty_mesh = dict(vec![
        ("nodes", nodes(Variant::Int(0))),
        (
            "meshes",
            Variant::List(vec![Variant::Dict(Dictionary::new())]),
        ),
    ]);
    assert_eq!(
        refusal(&empty_mesh, 0, 0, 0),
        "Gaussian splat mesh 0 is missing primitives."
    );
}

#[test]
fn parsed_clouds_are_noted_and_found_again() {
    assert_eq!(
        supported_extensions(),
        vec![BASE_EXTENSION, COMPRESSION_EXTENSION]
    );
    let mut data = import_preflight(&vec![BASE_EXTENSION.to_string()]);
    let json = document(vec![primitive(&REQUIRED)]);
    let parsed = import_post_parse(&json, &required_accessors(2), 1).unwrap();
    assert!(!parsed.has_errors);
    assert_eq!(parsed.nodes.len(), 1);
    assert_eq!(parsed.nodes[0].0, 0);
    assert_eq!(parsed.summaries.len(), 1);
    parsed.note(&mut data);
    let found = metadata_from_state(&data, 0).expect("metadata");
    assert_eq!(dict_i32(found, "point_count"), Some(2));
    assert!(metadata_from_state(&data, 1).is_none());
    assert!(metadata_from_state(&Dictionary::new(), 0).is_none());
    assert!(import_post_parse(&json, &required_accessors(2), 0)
        .unwrap()
        .nodes
        .is_empty());
}

#[test]
fn unsound_clouds_are_noticed() {
    let mut broken = Dictionary::new();
    broken.set(
        "extensions",
        Variant::Dict(dict(vec![(BASE_EXTENSION, extension())])),
    );
    let json = document(vec![Variant::Dict(broken)]);
    let parsed = import_post_parse(&json, &vec![], 1).unwrap();
    assert!(parsed.has_errors);
    assert!(parsed.notices.iter().any(|notice| notice.is_error));
    let missing = dict(vec![(
        "nodes",
        Variant::List(vec![Variant::Dict(dict(vec![("mesh", Variant::Int(0))]))]),
    )]);
    assert!(import_post_parse(&missing, &vec![], 1).is_err());
}

#[test]
fn assets_are_built_with_and_without_points() {
    let json = document(vec![primitive(&REQUIRED)]);
    let accessors = required_accessors(2);
    let metadata = inspect_gsplat_nodes(&json, &accessors).unwrap().remove(0);
    let raw = metadata.to_dictionary();
    let decoded = decode_splat_payload(&json, &accessors, &required_views(), &metadata).unwrap();
    let one = F32::from_bits(1.0f32.to_bits());
    let bounds = LocalBox {
        position: decoded.center_min,
        size: [one; 3],
    };
    let asset = build_asset(&raw, Some((decoded, bounds)));
    assert_eq!(asset.get_point_count(), 2);
    assert_eq!(asset.get_payload_byte_len(), 2 * 72);
    assert_eq!(asset.get_payload_layout(), PAYLOAD_LAYOUT_FLOAT32_V1);
    assert_eq!(asset.get_local_aabb(), bounds);
    assert_eq!(asset.extract_point_positions().len(), 2);
    assert_eq!(asset.get_metadata_summary(), metadata.summary());
    let bare = build_asset(&raw, None);
    assert_eq!(
        bare.get_payload(),
        b"layout=gsplat.import.placeholder.v1; points=2; fallback=none"
    );
    assert_eq!(bare.get_payload_layout(), PAYLOAD_LAYOUT_V1);
    assert_eq!(bare.get_point_count(), 2);
}

#[test]
fn preflight_lists_the_extensions() {
    let data = import_preflight(&vec!["EXT_other".to_string()]);
    assert_eq!(
        dict_strings(&data, "supported").unwrap(),
        vec![BASE_EXTENSION, COMPRESSION_EXTENSION]
    );
    assert_eq!(dict_strings(&data, "imported").unwrap(), vec!["EXT_other"]);
}

fn with_coefficients(count: u8) -> (Dictionary, Vec<Accessor>, Vec<BufferView>) {
    let mut names = REQUIRED.to_vec();
    let mut accessors = required_accessors(2);
    let mut views = required_views();
    for k in 0..count {
        names.push(Attribute::Coefficient(k));
        accessors.push(accessor(2, 2, 5 + k as i32));
        let base = 100.0 * (k + 1) as f32;
        let values: Vec<f32> = (0..6).map(|i| base + i as f32).collect();
        views.push(view(&values));
    }
    (document(vec![primitive(&names)]), accessors, views)
}

#[test]
fn coefficients_are_named_by_degree() {
    assert_eq!(
        Attribute::Coefficient(0).name(),
        "KHR_gaussian_splatting:SH_DEGREE_1_COEF_0"
    );
    assert_eq!(
        Attribute::Coefficient(3).name(),
        "KHR_gaussian_splatting:SH_DEGREE_2_COEF_0"
    );
    assert_eq!(
        Attribute::Coefficient(14).name(),
        "KHR_gaussian_splatting:SH_DEGREE_3_COEF_6"
    );
}

#[test]
fn coefficients_widen_the_splats() {
    for (count, degree) in [(0, 0), (2, 0), (3, 1), (7, 1), (8, 2), (14, 2), (15, 3)] {
        let (json, accessors, views) = with_coefficients(count);
        let metadata = inspect_gsplat_nodes(&json, &accessors).unwrap().remove(0);
        let decoded = decode_splat_payload(&json, &accessors, &views, &metadata).unwrap();
        assert_eq!(decoded.sh_degree_available, degree);
        let stride = [18, 27, 42, 63][degree as usize];
        assert_eq!(decoded.stride(), stride);
        assert_eq!(decoded.values().len(), 2 * stride);
        let values = numbers(&decoded.payload);
        assert_eq!(values[0], 1.0);
        assert_eq!(values[stride], -4.0);
        for c in 0..(stride - 18) / 3 {
            let base = 100.0 * (c + 1) as f32;
            let first = 18 + 3 * c;
            assert_eq!(&values[first..first + 3], &[base, base + 1.0, base + 2.0]);
            let second = stride + first;
            assert_eq!(&values[second..second + 3], &[base + 3.0, base + 4.0, base + 5.0]);
        }
    }
}

#[test]
fn coefficients_must_fit_the_points() {
    let (json, mut accessors, views) = with_coefficients(3);
    let metadata = inspect_gsplat_nodes(&json, &accessors).unwrap().remove(0);
    accessors[6].count = 1;
    assert_eq!(
        decode_splat_payload(&json, &accessors, &views, &metadata).unwrap_err(),
        DecodeError::LengthMismatch
    );
    accessors[6].accessor_type = 3;
    assert_eq!(
        decode_splat_payload(&json, &accessors, &views, &metadata)
            .unwrap_err()
            .message(),
        "Attribute KHR_gaussian_splatting:SH_DEGREE_1_COEF_1 uses unexpected accessor type VEC4."
    );
}

#[test]
fn decoded_clouds_are_cut_into_chunks() {
    let (json, accessors, views) = with_coefficients(3);
    let metadata = inspect_gsplat_nodes(&json, &accessors).unwrap().remove(0);
    let decoded = decode_splat_payload(&json, &accessors, &views, &metadata).unwrap();
    let bits = |value: f32| F32::from_bits(value.to_bits());
    let importance = vec![bits(1.0), bits(2.0)];
    let (chunked, radii) = decoded
        .clone()
        .into_chunks(&vec![[1, 0, 0], [0, 0, 0]], &importance);
    let table = chunked.chunk_table.as_ref().unwrap();
    assert_eq!(table.stride, 27);
    assert_eq!(table.chunk_size, bits(2.0));
    assert_eq!(table.entries.len(), 2);
    assert_eq!(table.entries[0].grid, [0, 0, 0]);
    assert_eq!(radii, vec![bits(0.6), bits(0.3)]);
    assert_eq!(chunked.values()[..27], decoded.values()[27..]);
    assert_eq!(chunked.values()[27..], decoded.values()[..27]);
    let (together, _) = decoded
        .clone()
        .into_chunks(&vec![[0, 0, 0], [0, 0, 0]], &importance);
    assert_eq!(together.values()[..27], decoded.values()[27..]);
    let asset = build_asset(
        &metadata.to_dictionary(),
        Some((chunked.clone(), LocalBox::default())),
    );
    assert_eq!(asset.payload_float_values().unwrap(), chunked.values());
    assert_eq!(asset.sh_degree_available(), 1);
}

#[test]
fn the_first_cloud_of_a_scene_is_decoded() {
    let json = document(vec![Variant::Nil, primitive(&REQUIRED), primitive(&REQUIRED)]);
    let accessors = required_accessors(2);
    let views = required_views();
    let (metadata, decoded) = decode_first_splat(&json, &accessors, &views).unwrap();
    assert_eq!(metadata.primitive_index, Some(1));
    assert_eq!(decoded.point_count, 2);
    let none = decode_first_splat(&Dictionary::new(), &accessors, &views).unwrap_err();
    assert_eq!(none, SceneError::NoSplats);
    assert_eq!(none.message(), "The scene has no gaussian splat primitive.");
    let broken = decode_first_splat(&json, &required_accessors(0), &views).unwrap_err();
    assert_eq!(broken, SceneError::Undecodable(DecodeError::NoPoints));
    assert_eq!(
        broken.message(),
        "Gaussian splat primitive contains zero points."
    );
    let homeless = dict(vec![(
        "nodes",
        Variant::List(vec![Variant::Dict(dict(vec![("mesh", Variant::Int(2))]))]),
    )]);
    assert_eq!(
        decode_first_splat(&homeless, &accessors, &views)
            .unwrap_err()
            .message(),
        "Node 0 references missing mesh 2."
    );
}
