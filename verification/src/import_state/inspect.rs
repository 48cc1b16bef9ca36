//! Finding the splat primitives of a scene and checking them.

use crate::import_state::{
    extension_metadata, push_message, ImportedSplatMetadata, MetadataView, BASE_EXTENSION,
    FALLBACK_COLOR_POINTS, FALLBACK_NONE,
};
use crate::text::{int_text, push_int};
use crate::variant::{
    dict_array, dict_dictionary, dict_i32, dict_under, int_under, list_under, lookup, texts,
    value_of, values_of, Dictionary, Entry, Value, Variant,
};
use vstd::prelude::*;
use vstd::string::*;

verus! {

/// The vertex attributes that a splat primitive can have.
#[derive(Clone, Copy, Debug, PartialEq, Eq, Structural)]
pub enum Attribute {
    Position,
    Rotation,
    Scale,
    Opacity,
    Sh0,
    Color,
    /// A higher-order coefficient, counted from 0: three of degree 1, then five of degree 2, then
    /// seven of degree 3.
    Coefficient(u8),
}

/// The name of a higher-order coefficient in a scene.
pub open spec fn coefficient_name(k: int) -> Seq<char> {
    if k <= 0 {
        "KHR_gaussian_splatting:SH_DEGREE_1_COEF_0"@
    } else if k <= 1 {
        "KHR_gaussian_splatting:SH_DEGREE_1_COEF_1"@
    } else if k <= 2 {
        "KHR_gaussian_splatting:SH_DEGREE_1_COEF_2"@
    } else if k <= 3 {
        "KHR_gaussian_splatting:SH_DEGREE_2_COEF_0"@
    } else if k <= 4 {
        "KHR_gaussian_splatting:SH_DEGREE_2_COEF_1"@
    } else if k <= 5 {
        "KHR_gaussian_splatting:SH_DEGREE_2_COEF_2"@
    } else if k <= 6 {
        "KHR_gaussian_splatting:SH_DEGREE_2_COEF_3"@
    } else if k <= 7 {
        "KHR_gaussian_splatting:SH_DEGREE_2_COEF_4"@
    } else if k <= 8 {
        "KHR_gaussian_splatting:SH_DEGREE_3_COEF_0"@
    } else if k <= 9 {
        "KHR_gaussian_splatting:SH_DEGREE_3_COEF_1"@
    } else if k <= 10 {
        "KHR_gaussian_splatting:SH_DEGREE_3_COEF_2"@
    } else if k <= 11 {
        "KHR_gaussian_splatting:SH_DEGREE_3_COEF_3"@
    } else if k <= 12 {
        "KHR_gaussian_splatting:SH_DEGREE_3_COEF_4"@
    } else if k <= 13 {
        "KHR_gaussian_splatting:SH_DEGREE_3_COEF_5"@
    } else {
        "KHR_gaussian_splatting:SH_DEGREE_3_COEF_6"@
    }
}

/// The name of an attribute in a scene.
pub open spec fn attribute_name(attribute: Attribute) -> Seq<char> {
    match attribute {
        Attribute::Position => "POSITION"@,
        Attribute::Rotation => "KHR_gaussian_splatting:ROTATION"@,
        Attribute::Scale => "KHR_gaussian_splatting:SCALE"@,
        Attribute::Opacity => "KHR_gaussian_splatting:OPACITY"@,
        Attribute::Sh0 => "KHR_gaussian_splatting:SH_DEGREE_0_COEF_0"@,
        Attribute::Color => "COLOR_0"@,
        Attribute::Coefficient(k) => coefficient_name(k as int),
    }
}

/// The name of a higher-order coefficient in a scene.
fn coefficient_label(k: u8) -> (name: &'static str)
    ensures
        name@ == coefficient_name(k as int),
{
    if k <= 0 {
        "KHR_gaussian_splatting:SH_DEGREE_1_COEF_0"
    } else if k <= 1 {
        "KHR_gaussian_splatting:SH_DEGREE_1_COEF_1"
    } else if k <= 2 {
        "KHR_gaussian_splatting:SH_DEGREE_1_COEF_2"
    } else if k <= 3 {
        "KHR_gaussian_splatting:SH_DEGREE_2_COEF_0"
    } else if k <= 4 {
        "KHR_gaussian_splatting:SH_DEGREE_2_COEF_1"
    } else if k <= 5 {
        "KHR_gaussian_splatting:SH_DEGREE_2_COEF_2"
    } else if k <= 6 {
        "KHR_gaussian_splatting:SH_DEGREE_2_COEF_3"
    } else if k <= 7 {
        "KHR_gaussian_splatting:SH_DEGREE_2_COEF_4"
    } else if k <= 8 {
        "KHR_gaussian_splatting:SH_DEGREE_3_COEF_0"
    } else if k <= 9 {
        "KHR_gaussian_splatting:SH_DEGREE_3_COEF_1"
    } else if k <= 10 {
        "KHR_gaussian_splatting:SH_DEGREE_3_COEF_2"
    } else if k <= 11 {
        "KHR_gaussian_splatting:SH_DEGREE_3_COEF_3"
    } else if k <= 12 {
        "KHR_gaussian_splatting:SH_DEGREE_3_COEF_4"
    } else if k <= 13 {
        "KHR_gaussian_splatting:SH_DEGREE_3_COEF_5"
    } else {
        "KHR_gaussian_splatting:SH_DEGREE_3_COEF_6"
    }
}

impl Attribute {
    /// The name of the attribute in a scene.
    pub fn name(self) -> (name: &'static str)
        ensures
            name@ == attribute_name(self),
    {
        match self {
            Attribute::Position => "POSITION",
            Attribute::Rotation => "KHR_gaussian_splatting:ROTATION",
            Attribute::Scale => "KHR_gaussian_splatting:SCALE",
            Attribute::Opacity => "KHR_gaussian_splatting:OPACITY",
            Attribute::Sh0 => "KHR_gaussian_splatting:SH_DEGREE_0_COEF_0",
            Attribute::Color => "COLOR_0",
            Attribute::Coefficient(k) => coefficient_label(k),
        }
    }
}

/// What a scene says of one accessor. The types are numbered as the engine numbers them.
#[derive(Clone, Copy, Debug, PartialEq, Eq, Structural)]
pub struct Accessor {
    pub count: i64,
    pub sparse_count: i64,
    pub accessor_type: i32,
    pub component_type: i32,
    pub normalized: bool,
    pub buffer_view: i32,
    pub byte_offset: i64,
}

/// A node that refers to a mesh which the scene does not have.
#[derive(Clone, Copy, Debug, PartialEq, Eq, Structural)]
pub struct MissingMesh {
    pub node_index: usize,
    pub mesh_index: i32,
}

/// What to tell a person about a missing mesh.
pub open spec fn missing_mesh_text(missing: MissingMesh) -> Seq<char> {
    "Node "@ + int_text(missing.node_index as int) + " references missing mesh "@ + int_text(
        missing.mesh_index as int,
    ) + "."@
}

impl MissingMesh {
    /// What to tell a person about it.
    pub fn message(&self) -> (text: String)
        ensures
            text@ == missing_mesh_text(*self),
    {
        let mut text: String = "Node ".to_owned();
        crate::text::push_nat(&mut text, self.node_index as u64);
        text.append(" references missing mesh ");
        push_int(&mut text, self.mesh_index as i64);
        text.append(".");
        text
    }
}

/// The number of elements of an accessor.
pub open spec fn element_count(accessors: Seq<Accessor>, index: i32) -> Option<i32> {
    if 0 <= index < accessors.len() {
        Some(accessors[index as int].count as i32)
    } else {
        None
    }
}

/// The number of elements of an accessor.
pub fn accessor_count(accessors: &Vec<Accessor>, accessor_index: i32) -> (count: Option<i32>)
    ensures
        count == element_count(accessors@, accessor_index),
{
    if accessor_index >= 0 && (accessor_index as usize) < accessors.len() {
        Some(accessors[accessor_index as usize].count as i32)
    } else {
        None
    }
}

/// The message about an attribute that is not there.
pub open spec fn missing_text(attribute: Attribute) -> Seq<char> {
    "Missing required attribute "@ + attribute_name(attribute) + "."@
}

/// The message about two attributes that do not belong together.
pub open spec fn mismatch_text(reference: Attribute, candidate: Attribute) -> Seq<char> {
    "Accessor count mismatch between "@ + attribute_name(reference) + " and "@ + attribute_name(
        candidate,
    ) + "."@
}

/// The messages, with one more if the attribute is not there.
pub open spec fn note_missing(
    messages: Seq<Seq<char>>,
    attributes: Seq<Entry>,
    attribute: Attribute,
) -> Seq<Seq<char>> {
    if lookup(attributes, attribute_name(attribute)) is None {
        messages.push(missing_text(attribute))
    } else {
        messages
    }
}

/// The messages, with one more if the attribute has another number of elements than the positions.
/// Attributes that do not name an accessor of the scene are passed over.
pub open spec fn note_mismatch(
    messages: Seq<Seq<char>>,
    accessors: Seq<Accessor>,
    positions: i32,
    attributes: Seq<Entry>,
    attribute: Attribute,
) -> Seq<Seq<char>> {
    match int_under(attributes, attribute_name(attribute)) {
        Some(index) => {
            let wanted = element_count(accessors, positions);
            let found = element_count(accessors, index);
            if wanted is Some && found is Some && wanted != found {
                messages.push(mismatch_text(Attribute::Position, attribute))
            } else {
                messages
            }
        },
        None => messages,
    }
}

/// The message about a primitive that is no point cloud.
pub open spec fn mode_errors(primitive: Seq<Entry>) -> Seq<Seq<char>> {
    if int_under(primitive, "mode"@) == Some(0i32) {
        Seq::empty()
    } else {
        seq!["Gaussian splat primitives must use POINTS mode."@]
    }
}

/// The messages about all required attributes that are not there.
pub open spec fn attribute_errors(
    messages: Seq<Seq<char>>,
    attributes: Seq<Entry>,
) -> Seq<Seq<char>> {
    let m1 = note_missing(messages, attributes, Attribute::Position);
    let m2 = note_missing(m1, attributes, Attribute::Rotation);
    let m3 = note_missing(m2, attributes, Attribute::Scale);
    let m4 = note_missing(m3, attributes, Attribute::Opacity);
    note_missing(m4, attributes, Attribute::Sh0)
}

/// The messages about all attributes with another number of elements than the positions.
pub open spec fn count_errors(
    messages: Seq<Seq<char>>,
    accessors: Seq<Accessor>,
    positions: i32,
    attributes: Seq<Entry>,
) -> Seq<Seq<char>> {
    let m1 = note_mismatch(messages, accessors, positions, attributes, Attribute::Sh0);
    let m2 = note_mismatch(m1, accessors, positions, attributes, Attribute::Rotation);
    let m3 = note_mismatch(m2, accessors, positions, attributes, Attribute::Scale);
    note_mismatch(m3, accessors, positions, attributes, Attribute::Opacity)
}

/// The metadata with what checking the primitive found out.
pub open spec fn validated(
    m: MetadataView,
    primitive: Seq<Entry>,
    accessors: Seq<Accessor>,
) -> MetadataView {
    let moded = m.validation_errors + mode_errors(primitive);
    match dict_under(primitive, "attributes"@) {
        None => MetadataView {
            validation_errors: moded.push(
                "Gaussian splat primitive is missing the attributes dictionary."@,
            ),
            ..m
        },
        Some(attributes) => {
            let colored = lookup(attributes, "COLOR_0"@) is Some;
            let checked = attribute_errors(moded, attributes);
            let marked = MetadataView {
                has_color_fallback: colored,
                fallback_mode: if colored {
                    FALLBACK_COLOR_POINTS@
                } else {
                    FALLBACK_NONE@
                },
                validation_errors: checked,
                ..m
            };
            match int_under(attributes, "POSITION"@) {
                None => marked,
                Some(positions) => MetadataView {
                    point_count: match element_count(accessors, positions) {
                        Some(count) => count,
                        None => 0,
                    },
                    validation_errors: count_errors(checked, accessors, positions, attributes),
                    ..marked
                },
            }
        },
    }
}

/// Adds a message if the attribute is not there.
fn check_present(messages: &mut Vec<String>, attributes: &Dictionary, attribute: Attribute)
    ensures
        texts(final(messages)@) == note_missing(texts(old(messages)@), attributes@, attribute),
{
    if !attributes.contains_key(attribute.name()) {
        let mut text: String = "Missing required attribute ".to_owned();
        text.append(attribute.name());
        text.append(".");
        push_message(messages, text.as_str());
    }
}

/// Adds a message if the attribute has another number of elements than the positions.
fn validate_accessor_match(
    accessors: &Vec<Accessor>,
    positions: i32,
    messages: &mut Vec<String>,
    attributes: &Dictionary,
    attribute: Attribute,
)
    ensures
        texts(final(messages)@) == note_mismatch(
            texts(old(messages)@),
            accessors@,
            positions,
            attributes@,
            attribute,
        ),
{
    let candidate: i32 = match dict_i32(attributes, attribute.name()) {
        Some(index) => index,
        None => return ,
    };
    let reference_count: Option<i32> = accessor_count(accessors, positions);
    let candidate_count: Option<i32> = accessor_count(accessors, candidate);
    if let Some(wanted) = reference_count {
        if let Some(found) = candidate_count {
            if wanted != found {
                let mut text: String = "Accessor count mismatch between ".to_owned();
                text.append(Attribute::Position.name());
                text.append(" and ");
                text.append(attribute.name());
                text.append(".");
                push_message(messages, text.as_str());
            }
        }
    }
}

/// Checks a primitive and notes in the metadata what is wrong with it.
pub fn validate_primitive(
    primitive_dict: &Dictionary,
    accessors: &Vec<Accessor>,
    metadata: &mut ImportedSplatMetadata,
)
    ensures
        final(metadata)@ == validated(old(metadata)@, primitive_dict@, accessors@),
{
    let points: bool = match dict_i32(primitive_dict, "mode") {
        Some(mode) => mode == 0,
        None => false,
    };
    if !points {
        push_message(
            &mut metadata.validation_errors,
            "Gaussian splat primitives must use POINTS mode.",
        );
    }
    assert(texts(metadata.validation_errors@) =~= old(metadata)@.validation_errors + mode_errors(
        primitive_dict@,
    ));
    let attributes: &Dictionary = match dict_dictionary(primitive_dict, "attributes") {
        Some(attributes) => attributes,
        None => {
            push_message(
                &mut metadata.validation_errors,
                "Gaussian splat primitive is missing the attributes dictionary.",
            );
            return ;
        },
    };
    check_present(&mut metadata.validation_errors, attributes, Attribute::Position);
    check_present(&mut metadata.validation_errors, attributes, Attribute::Rotation);
    check_present(&mut metadata.validation_errors, attributes, Attribute::Scale);
    check_present(&mut metadata.validation_errors, attributes, Attribute::Opacity);
    check_present(&mut metadata.validation_errors, attributes, Attribute::Sh0);
    metadata.has_color_fallback = attributes.contains_key("COLOR_0");
    metadata.fallback_mode = if metadata.has_color_fallback {
        FALLBACK_COLOR_POINTS.to_owned()
    } else {
        FALLBACK_NONE.to_owned()
    };
    let positions: i32 = match dict_i32(attributes, "POSITION") {
        Some(positions) => positions,
        None => return ,
    };
    metadata.point_count = match accessor_count(accessors, positions) {
        Some(count) => count,
        None => 0,
    };
    validate_accessor_match(
        accessors,
        positions,
        &mut metadata.validation_errors,
        attributes,
        Attribute::Sh0,
    );
    validate_accessor_match(
        accessors,
        positions,
        &mut metadata.validation_errors,
        attributes,
        Attribute::Rotation,
    );
    validate_accessor_match(
        accessors,
        positions,
        &mut metadata.validation_errors,
        attributes,
        Attribute::Scale,
    );
    validate_accessor_match(
        accessors,
        positions,
        &mut metadata.validation_errors,
        attributes,
        Attribute::Opacity,
    );
}

/// The contents of a list of metadata.
pub open spec fn metadata_views(list: Seq<ImportedSplatMetadata>) -> Seq<MetadataView> {
    Seq::new(list.len(), |i: int| list[i]@)
}

/// The warning for each of several splat primitives of one node.
pub open spec fn several_text() -> Seq<char> {
    "Multiple gaussian splat primitives were found for one node. The runtime currently generates one node per primitive match."@
}

/// The metadata of one node's primitives, with a warning where there are several.
pub open spec fn warned(list: Seq<MetadataView>) -> Seq<MetadataView> {
    if list.len() > 1 {
        Seq::new(
            list.len(),
            |i: int|
                MetadataView {
                    validation_warnings: list[i].validation_warnings.push(several_text()),
                    ..list[i]
                },
        )
    } else {
        list
    }
}

/// The extensions of a primitive, if it is a splat primitive.
pub open spec fn splat_extensions(primitive: Value) -> Option<Seq<Entry>> {
    match primitive {
        Value::Dict(entries) => match dict_under(entries, "extensions"@) {
            Some(extensions) => if lookup(extensions, BASE_EXTENSION@) is Some {
                Some(extensions)
            } else {
                None
            },
            None => None,
        },
        _ => None,
    }
}

/// What is known of one splat primitive.
pub open spec fn primitive_metadata(
    primitive: Value,
    extensions: Seq<Entry>,
    accessors: Seq<Accessor>,
    node_index: int,
    mesh_index: i32,
    primitive_index: int,
) -> MetadataView {
    validated(
        MetadataView {
            node_index: Some(node_index as i32),
            mesh_index: Some(mesh_index),
            primitive_index: Some(primitive_index as i32),
            ..extension_metadata(BASE_EXTENSION@, extensions)
        },
        primitive->Dict_0,
        accessors,
    )
}

/// The splat primitives among the first `n` of a mesh.
pub open spec fn mesh_splats(
    primitives: Seq<Value>,
    accessors: Seq<Accessor>,
    node_index: int,
    mesh_index: i32,
    n: nat,
) -> Seq<MetadataView>
    decreases n,
{
    if n == 0 {
        Seq::empty()
    } else {
        let prev = mesh_splats(primitives, accessors, node_index, mesh_index, (n - 1) as nat);
        match splat_extensions(primitives[n - 1]) {
            Some(extensions) => prev.push(
                primitive_metadata(
                    primitives[n - 1],
                    extensions,
                    accessors,
                    node_index,
                    mesh_index,
                    n - 1,
                ),
            ),
            None => prev,
        }
    }
}

/// The dictionary at an index of a list.
pub open spec fn dict_at(list: Seq<Value>, index: int) -> Option<Seq<Entry>> {
    if 0 <= index < list.len() {
        match list[index] {
            Value::Dict(entries) => Some(entries),
            _ => None,
        }
    } else {
        None
    }
}

/// The splats of one node, or the mesh that it misses.
pub open spec fn node_splats(
    nodes: Seq<Value>,
    meshes: Seq<Value>,
    accessors: Seq<Accessor>,
    node_index: int,
) -> Result<Seq<MetadataView>, i32> {
    match dict_at(nodes, node_index) {
        None => Ok(Seq::empty()),
        Some(node) => match int_under(node, "mesh"@) {
            None => Ok(Seq::empty()),
            Some(mesh_index) => match dict_at(meshes, mesh_index as int) {
                None => Err(mesh_index),
                Some(mesh) => match list_under(mesh, "primitives"@) {
                    None => Ok(Seq::empty()),
                    Some(primitives) => Ok(
                        warned(
                            mesh_splats(
                                primitives,
                                accessors,
                                node_index,
                                mesh_index,
                                primitives.len(),
                            ),
                        ),
                    ),
                },
            },
        },
    }
}

/// The splats of the first `n` nodes, or the first node among them that misses its mesh.
pub open spec fn scene_splats(
    nodes: Seq<Value>,
    meshes: Seq<Value>,
    accessors: Seq<Accessor>,
    n: nat,
) -> Result<Seq<MetadataView>, MissingMesh>
    decreases n,
{
    if n == 0 {
        Ok(Seq::empty())
    } else {
        match scene_splats(nodes, meshes, accessors, (n - 1) as nat) {
            Err(missing) => Err(missing),
            Ok(prev) => match node_splats(nodes, meshes, accessors, n - 1) {
                Err(mesh_index) => Err(
                    MissingMesh { node_index: (n - 1) as usize, mesh_index },
                ),
                Ok(found) => Ok(prev + found),
            },
        }
    }
}

/// The list under a key, empty where there is none.
pub open spec fn list_or_empty(entries: Seq<Entry>, key: Seq<char>) -> Seq<Value> {
    match list_under(entries, key) {
        Some(items) => items,
        None => Seq::empty(),
    }
}

/// The dictionary at an index of a list.
pub fn dictionary_at(list: &Vec<Variant>, index: usize) -> (dict: Option<&Dictionary>)
    ensures
        match dict {
            Some(dict) => dict_at(values_of(list@), index as int) == Some(dict@),
            None => dict_at(values_of(list@), index as int) == None::<Seq<Entry>>,
        },
{
    if index >= list.len() {
        return None;
    }
    assert(values_of(list@)[index as int] == value_of(list@[index as int]));
    match &list[index] {
        Variant::Dict(dict) => Some(dict),
        _ => None,
    }
}

/// Collects the splat primitives of a mesh.
fn inspect_mesh(
    primitives: &Vec<Variant>,
    accessors: &Vec<Accessor>,
    node_index: usize,
    mesh_index: i32,
) -> (found: Vec<ImportedSplatMetadata>)
    ensures
        metadata_views(found@) == mesh_splats(
            values_of(primitives@),
            accessors@,
            node_index as int,
            mesh_index,
            primitives@.len(),
        ),
{
    let mut found: Vec<ImportedSplatMetadata> = Vec::new();
    let ghost values = values_of(primitives@);
    let mut i: usize = 0;
    assert(metadata_views(found@) =~= Seq::empty());
    while i < primitives.len()
        invariant
            i <= primitives@.len(),
            values == values_of(primitives@),
            metadata_views(found@) == mesh_splats(
                values,
                accessors@,
                node_index as int,
                mesh_index,
                i as nat,
            ),
        decreases primitives@.len() - i,
    {
        let ghost before = metadata_views(found@);
        if let Some(primitive) = dictionary_at(primitives, i) {
            if let Some(extensions) = dict_dictionary(primitive, "extensions") {
                if extensions.contains_key(BASE_EXTENSION) {
                    let mut metadata = ImportedSplatMetadata::from_extensions(
                        BASE_EXTENSION,
                        extensions.duplicate(),
                    );
                    metadata.node_index = Some(node_index as i32);
                    metadata.mesh_index = Some(mesh_index);
                    metadata.primitive_index = Some(i as i32);
                    validate_primitive(primitive, accessors, &mut metadata);
                    found.push(metadata);
                    assert(metadata_views(found@) =~= before.push(metadata@));
                }
            }
        }
        i = i + 1;
    }
    found
}

/// Adds the warning where a node has several splat primitives.
fn warn_several(list: &mut Vec<ImportedSplatMetadata>)
    ensures
        metadata_views(final(list)@) == warned(metadata_views(old(list)@)),
{
    let ghost before = metadata_views(list@);
    if list.len() <= 1 {
        return ;
    }
    let mut i: usize = 0;
    while i < list.len()
        invariant
            before == metadata_views(old(list)@),
            before.len() > 1,
            i <= list@.len() == before.len(),
            forall|k: int| 0 <= k < i ==> (#[trigger] list@[k])@ == warned(before)[k],
            forall|k: int| i <= k < list@.len() ==> (#[trigger] list@[k])@ == before[k],
        decreases list@.len() - i,
    {
        let ghost prev = list@;
        assert(prev[i as int]@ == before[i as int]);
        push_message(
            &mut list[i].validation_warnings,
            "Multiple gaussian splat primitives were found for one node. The runtime currently generates one node per primitive match.",
        );
        assert(list@[i as int]@ =~= warned(before)[i as int]);
        assert forall|k: int| 0 <= k < list@.len() && k != i implies #[trigger] list@[k]
            == prev[k] by {}
        i = i + 1;
    }
    assert(metadata_views(list@) =~= warned(before));
}

/// Finds all splat primitives of a scene, node by node.
pub fn inspect_gsplat_nodes(json: &Dictionary, accessors: &Vec<Accessor>) -> (result: Result<
    Vec<ImportedSplatMetadata>,
    MissingMesh,
>)
    ensures
        ({
            let nodes = list_or_empty(json@, "nodes"@);
            let meshes = list_or_empty(json@, "meshes"@);
            match result {
                Ok(list) => scene_splats(nodes, meshes, accessors@, nodes.len()) == Ok::<
                    Seq<MetadataView>,
                    MissingMesh,
                >(metadata_views(list@)),
                Err(missing) => scene_splats(nodes, meshes, accessors@, nodes.len()) == Err::<
                    Seq<MetadataView>,
                    MissingMesh,
                >(missing),
            }
        }),
{
    let none: Vec<Variant> = Vec::new();
    assert(values_of(none@) =~= Seq::empty());
    let nodes: &Vec<Variant> = match dict_array(json, "nodes") {
        Some(items) => items,
        None => &none,
    };
    let meshes: &Vec<Variant> = match dict_array(json, "meshes") {
        Some(items) => items,
        None => &none,
    };
    let ghost node_values = values_of(nodes@);
    let ghost mesh_values = values_of(meshes@);
    let mut list: Vec<ImportedSplatMetadata> = Vec::new();
    let mut i: usize = 0;
    assert(metadata_views(list@) =~= Seq::empty());
    while i < nodes.len()
        invariant
            i <= nodes@.len(),
            node_values == values_of(nodes@),
            mesh_values == values_of(meshes@),
            node_values == list_or_empty(json@, "nodes"@),
            mesh_values == list_or_empty(json@, "meshes"@),
            scene_splats(node_values, mesh_values, accessors@, i as nat) == Ok::<
                Seq<MetadataView>,
                MissingMesh,
            >(metadata_views(list@)),
        decreases nodes@.len() - i,
    {
        let ghost before = metadata_views(list@);
        assert(before + Seq::<MetadataView>::empty() =~= before);
        if let Some(node) = dictionary_at(nodes, i) {
            if let Some(mesh_index) = dict_i32(node, "mesh") {
                let mesh: Option<&Dictionary> = if mesh_index >= 0 {
                    dictionary_at(meshes, mesh_index as usize)
                } else {
                    None
                };
                match mesh {
                    None => {
                        let missing = MissingMesh { node_index: i, mesh_index };
                        proof {
                            lemma_missing_stays(
                                node_values,
                                mesh_values,
                                accessors@,
                                (i + 1) as nat,
                                node_values.len(),
                                missing,
                            );
                        }
                        return Err(missing);
                    },
                    Some(mesh) => {
                        if let Some(primitives) = dict_array(mesh, "primitives") {
                            let mut found: Vec<ImportedSplatMetadata> = inspect_mesh(
                                primitives,
                                accessors,
                                i,
                                mesh_index,
                            );
                            warn_several(&mut found);
                            let ghost more = found@;
                            list.append(&mut found);
                            assert(metadata_views(list@) =~= before + metadata_views(more));
                        }
                    },
                }
            }
        }
        i = i + 1;
    }
    Ok(list)
}

/// A missing mesh among the first nodes is a missing mesh among all.
proof fn lemma_missing_stays(
    nodes: Seq<Value>,
    meshes: Seq<Value>,
    accessors: Seq<Accessor>,
    m: nat,
    n: nat,
    missing: MissingMesh,
)
    requires
        m <= n,
        scene_splats(nodes, meshes, accessors, m) == Err::<Seq<MetadataView>, MissingMesh>(missing),
    ensures
        scene_splats(nodes, meshes, accessors, n) == Err::<Seq<MetadataView>, MissingMesh>(missing),
    decreases n,
{
    if m < n {
        lemma_missing_stays(nodes, meshes, accessors, m, (n - 1) as nat, missing);
    }
}

} // verus!
