//! Imports: everything that a scene holds of splats is found, and everything wrong with it is told.

use crate::asset::{fields_of_splats, payload_numbers, with_metadata, AssetView};
use crate::bytes::word_at;
use crate::floats::F32;
use crate::gltf_extension::{cloud_of_mesh, notices_about, parsed_clouds, with_cloud, ParsedView};
use crate::import_options::{
    clamped, find_in_entries, find_in_entry, find_in_items, find_value, float_within, gives_nothing,
    import_path, import_paths, int_within, merged, option_float, option_int, saved_options,
    with_options, PreviewImportOptions,
};
use crate::import_state::inspect::{
    attribute_errors, attribute_name, count_errors, mesh_splats, mode_errors, node_splats,
    note_mismatch, scene_splats, validated, warned, Accessor, Attribute,
};
use crate::import_state::{
    dictionary_metadata, extension_metadata, index_text, metadata_entries, summary_text, text_or,
    MetadataView,
};
use crate::node::profile::RenderProfile;
use crate::node::state::{backend_of, cloud_of, points_of, NodeView};
use crate::scene_import_plugin::{
    dialog_options, names_general_option, names_internal_option, node_like, offers_options,
};
use crate::text::{ends_in, int_text, lower_cased};
use crate::variant::{
    bool_under, dict_under, int_under, list_under, lookup, text_under, texts_under, Entry, Value,
};
use vstd::prelude::*;
use vstd::string::*;

verus! {

/// What the extension of a primitive says is known of the cloud. The kernel and the color space
/// have to be there; the projection and the sorting have what stands in for them.
pub proof fn extensions_are_read(source: Seq<char>, extensions: Seq<Entry>, base: Seq<Entry>)
    requires
        lookup(extensions, "KHR_gaussian_splatting"@) == Some(Value::Dict(base)),
    ensures
        ({
            let m = extension_metadata(source, extensions);
            &&& m.source_extension == source
            &&& m.raw_extensions == extensions
            &&& m.kernel == text_under(base, "kernel"@)
            &&& m.color_space == text_under(base, "colorSpace"@)
            &&& text_under(base, "projection"@) matches Some(text) ==> m.projection == text
            &&& text_under(base, "projection"@) is None ==> m.projection == "perspective"@
            &&& text_under(base, "sortingMethod"@) matches Some(text) ==> m.sorting_method == text
            &&& text_under(base, "sortingMethod"@) is None ==> m.sorting_method
                == "cameraDistance"@
            &&& m.compression is Some <==> (dict_under(base, "extensions"@) matches Some(nested)
                && lookup(nested, "KHR_gaussian_splatting_compression_spz_2"@) is Some)
            &&& m.fallback_mode == "none"@ && !m.has_color_fallback
            &&& m.point_count == 0
            &&& m.validation_errors.len() == 0 <==> m.kernel is Some && m.color_space is Some
            &&& m.validation_errors.len() == 2 <==> m.kernel is None && m.color_space is None
            &&& m.kernel is None ==> m.validation_errors.contains(
                "Gaussian splat extension is missing required property kernel."@,
            )
            &&& m.color_space is None ==> m.validation_errors.contains(
                "Gaussian splat extension is missing required property colorSpace."@,
            )
            &&& m.validation_warnings.len() == 0
        }),
{
    let m = extension_metadata(source, extensions);
    if m.kernel is None {
        assert(m.validation_errors[0]
            == "Gaussian splat extension is missing required property kernel."@);
    }
    if m.color_space is None {
        assert(m.validation_errors[m.validation_errors.len() - 1]
            == "Gaussian splat extension is missing required property colorSpace."@);
    }
}

/// Whether an attribute has as many elements as the positions, or names no accessor of the scene.
pub open spec fn counts_agree(
    accessors: Seq<Accessor>,
    positions: i32,
    attributes: Seq<Entry>,
    name: Seq<char>,
) -> bool {
    match int_under(attributes, name) {
        Some(index) => 0 <= positions < accessors.len() && 0 <= index < accessors.len()
            ==> accessors[positions as int].count as i32 == accessors[index as int].count as i32,
        None => true,
    }
}

/// Whether nothing is wrong with a primitive: it is a cloud of points, has the five attributes of
/// splats, and as many of each as positions.
pub open spec fn is_sound(primitive: Seq<Entry>, accessors: Seq<Accessor>) -> bool {
    &&& int_under(primitive, "mode"@) == Some(0i32)
    &&& dict_under(primitive, "attributes"@) matches Some(attributes) && {
        &&& lookup(attributes, "POSITION"@) is Some
        &&& lookup(attributes, "KHR_gaussian_splatting:ROTATION"@) is Some
        &&& lookup(attributes, "KHR_gaussian_splatting:SCALE"@) is Some
        &&& lookup(attributes, "KHR_gaussian_splatting:OPACITY"@) is Some
        &&& lookup(attributes, "KHR_gaussian_splatting:SH_DEGREE_0_COEF_0"@) is Some
        &&& int_under(attributes, "POSITION"@) matches Some(positions) ==> {
            &&& counts_agree(
                accessors,
                positions,
                attributes,
                "KHR_gaussian_splatting:SH_DEGREE_0_COEF_0"@,
            )
            &&& counts_agree(accessors, positions, attributes, "KHR_gaussian_splatting:ROTATION"@)
            &&& counts_agree(accessors, positions, attributes, "KHR_gaussian_splatting:SCALE"@)
            &&& counts_agree(accessors, positions, attributes, "KHR_gaussian_splatting:OPACITY"@)
        }
    }
}

/// Checking a primitive adds a message exactly where something is wrong with it, keeps the messages
/// that were there, and notes its points and whether there are colors to fall back to.
pub proof fn faults_are_told(m: MetadataView, primitive: Seq<Entry>, accessors: Seq<Accessor>)
    ensures
        ({
            let after = validated(m, primitive, accessors);
            let attributes = dict_under(primitive, "attributes"@);
            &&& after.validation_errors.len() >= m.validation_errors.len()
            &&& after.validation_errors.take(m.validation_errors.len() as int)
                == m.validation_errors
            &&& after.validation_errors.len() == m.validation_errors.len() <==> is_sound(
                primitive,
                accessors,
            )
            &&& after.validation_warnings == m.validation_warnings
            &&& attributes matches Some(attributes) ==> {
                &&& after.has_color_fallback <==> lookup(attributes, "COLOR_0"@) is Some
                &&& after.has_color_fallback ==> after.fallback_mode == "color_points"@
                &&& !after.has_color_fallback ==> after.fallback_mode == "none"@
                &&& int_under(attributes, "POSITION"@) matches Some(index) ==> {
                    &&& 0 <= index < accessors.len() ==> after.point_count
                        == accessors[index as int].count as i32
                    &&& index < 0 || index >= accessors.len() ==> after.point_count == 0
                }
            }
            &&& after.node_index == m.node_index
            &&& after.mesh_index == m.mesh_index
            &&& after.primitive_index == m.primitive_index
            &&& after.kernel == m.kernel
            &&& after.source_extension == m.source_extension
        }),
{
    let errors = m.validation_errors;
    let moded = errors + mode_errors(primitive);
    if let Some(attributes) = dict_under(primitive, "attributes"@) {
        lemma_messages_grow(moded, attributes, accessors);
    }
    let after = validated(m, primitive, accessors).validation_errors;
    assert(moded.len() <= after.len());
    assert(after.take(moded.len() as int) =~= moded);
    assert(after.take(errors.len() as int) =~= errors) by {
        assert forall|i: int| 0 <= i < errors.len() implies after[i] == errors[i] by {
            assert(after.take(moded.len() as int)[i] == moded[i]);
        }
    }
}

proof fn lemma_messages_grow(
    moded: Seq<Seq<char>>,
    attributes: Seq<Entry>,
    accessors: Seq<Accessor>,
)
    ensures
        ({
            let checked = attribute_errors(moded, attributes);
            &&& checked.len() >= moded.len()
            &&& checked.take(moded.len() as int) == moded
            &&& checked.len() == moded.len() <==> {
                &&& lookup(attributes, "POSITION"@) is Some
                &&& lookup(attributes, "KHR_gaussian_splatting:ROTATION"@) is Some
                &&& lookup(attributes, "KHR_gaussian_splatting:SCALE"@) is Some
                &&& lookup(attributes, "KHR_gaussian_splatting:OPACITY"@) is Some
                &&& lookup(attributes, "KHR_gaussian_splatting:SH_DEGREE_0_COEF_0"@) is Some
            }
            &&& forall|positions: i32|
                ({
                    let counted = #[trigger] count_errors(
                        checked,
                        accessors,
                        positions,
                        attributes,
                    );
                    &&& counted.len() >= checked.len()
                    &&& counted.take(moded.len() as int) == moded
                    &&& counted.len() == checked.len() <==> {
                        &&& counts_agree(
                            accessors,
                            positions,
                            attributes,
                            "KHR_gaussian_splatting:SH_DEGREE_0_COEF_0"@,
                        )
                        &&& counts_agree(
                            accessors,
                            positions,
                            attributes,
                            "KHR_gaussian_splatting:ROTATION"@,
                        )
                        &&& counts_agree(
                            accessors,
                            positions,
                            attributes,
                            "KHR_gaussian_splatting:SCALE"@,
                        )
                        &&& counts_agree(
                            accessors,
                            positions,
                            attributes,
                            "KHR_gaussian_splatting:OPACITY"@,
                        )
                    }
                })
        }),
{
    let checked = attribute_errors(moded, attributes);
    assert(checked.take(moded.len() as int) =~= moded);
    assert forall|positions: i32|
        ({
            let counted = #[trigger] count_errors(checked, accessors, positions, attributes);
            &&& counted.len() >= checked.len()
            &&& counted.take(moded.len() as int) == moded
            &&& counted.len() == checked.len() <==> {
                &&& counts_agree(
                    accessors,
                    positions,
                    attributes,
                    "KHR_gaussian_splatting:SH_DEGREE_0_COEF_0"@,
                )
                &&& counts_agree(
                    accessors,
                    positions,
                    attributes,
                    "KHR_gaussian_splatting:ROTATION"@,
                )
                &&& counts_agree(accessors, positions, attributes, "KHR_gaussian_splatting:SCALE"@)
                &&& counts_agree(
                    accessors,
                    positions,
                    attributes,
                    "KHR_gaussian_splatting:OPACITY"@,
                )
            }
        }) by {
        let counted = count_errors(checked, accessors, positions, attributes);
        lemma_counted(checked, accessors, positions, attributes);
        assert(counted.take(moded.len() as int) =~= moded) by {
            assert forall|i: int| 0 <= i < moded.len() implies counted[i] == moded[i] by {
                assert(counted[i] == checked[i]);
                assert(checked.take(moded.len() as int)[i] == moded[i]);
            }
        }
    }
}

proof fn lemma_mismatch(
    messages: Seq<Seq<char>>,
    accessors: Seq<Accessor>,
    positions: i32,
    attributes: Seq<Entry>,
    attribute: Attribute,
)
    ensures
        ({
            let after = note_mismatch(messages, accessors, positions, attributes, attribute);
            &&& after.len() >= messages.len()
            &&& after.len() == messages.len() <==> counts_agree(
                accessors,
                positions,
                attributes,
                attribute_name(attribute),
            )
            &&& forall|i: int| 0 <= i < messages.len() ==> #[trigger] after[i] == messages[i]
        }),
{
}

proof fn lemma_counted(
    checked: Seq<Seq<char>>,
    accessors: Seq<Accessor>,
    positions: i32,
    attributes: Seq<Entry>,
)
    ensures
        ({
            let counted = count_errors(checked, accessors, positions, attributes);
            &&& counted.len() >= checked.len()
            &&& forall|i: int| 0 <= i < checked.len() ==> #[trigger] counted[i] == checked[i]
            &&& counted.len() == checked.len() <==> {
                &&& counts_agree(
                    accessors,
                    positions,
                    attributes,
                    "KHR_gaussian_splatting:SH_DEGREE_0_COEF_0"@,
                )
                &&& counts_agree(
                    accessors,
                    positions,
                    attributes,
                    "KHR_gaussian_splatting:ROTATION"@,
                )
                &&& counts_agree(accessors, positions, attributes, "KHR_gaussian_splatting:SCALE"@)
                &&& counts_agree(
                    accessors,
                    positions,
                    attributes,
                    "KHR_gaussian_splatting:OPACITY"@,
                )
            }
        }),
{
    lemma_mismatch(checked, accessors, positions, attributes, Attribute::Sh0);
    let m1 = note_mismatch(checked, accessors, positions, attributes, Attribute::Sh0);
    lemma_mismatch(m1, accessors, positions, attributes, Attribute::Rotation);
    let m2 = note_mismatch(m1, accessors, positions, attributes, Attribute::Rotation);
    lemma_mismatch(m2, accessors, positions, attributes, Attribute::Scale);
    let m3 = note_mismatch(m2, accessors, positions, attributes, Attribute::Scale);
    lemma_mismatch(m3, accessors, positions, attributes, Attribute::Opacity);
    let m4 = note_mismatch(m3, accessors, positions, attributes, Attribute::Opacity);
    assert forall|i: int| 0 <= i < checked.len() implies #[trigger] m4[i] == checked[i] by {
        assert(m4[i] == m3[i]);
        assert(m3[i] == m2[i]);
        assert(m2[i] == m1[i]);
    }
}

/// Whether a value is a primitive that carries the extension of splats.
pub open spec fn is_splat_primitive(primitive: Value) -> bool {
    primitive matches Value::Dict(entries) && (dict_under(entries, "extensions"@) matches Some(
        extensions,
    ) && lookup(extensions, "KHR_gaussian_splatting"@) is Some)
}

/// Whether metadata is about one primitive of a node.
pub open spec fn is_about(m: MetadataView, node: int, mesh: i32, primitive: int) -> bool {
    m.node_index == Some(node as i32) && m.mesh_index == Some(mesh) && m.primitive_index == Some(
        primitive as i32,
    )
}

/// Whether one of the primitives of a node is among what was found.
pub open spec fn is_found(list: Seq<MetadataView>, node: int, mesh: i32, primitive: int) -> bool {
    exists|f: int| 0 <= f < list.len() && is_about(#[trigger] list[f], node, mesh, primitive)
}

/// Whether metadata is about one of the first `n` primitives, one that carries the extension.
pub open spec fn is_of_a_splat(
    primitives: Seq<Value>,
    m: MetadataView,
    node: int,
    mesh: i32,
    n: int,
) -> bool {
    exists|k: int|
        0 <= k < n && is_splat_primitive(#[trigger] primitives[k]) && is_about(m, node, mesh, k)
}

proof fn lemma_mesh_splats(
    primitives: Seq<Value>,
    accessors: Seq<Accessor>,
    node: int,
    mesh: i32,
    n: nat,
)
    requires
        n <= primitives.len(),
    ensures
        ({
            let found = mesh_splats(primitives, accessors, node, mesh, n);
            &&& forall|k: int|
                0 <= k < n && is_splat_primitive(#[trigger] primitives[k]) ==> is_found(
                    found,
                    node,
                    mesh,
                    k,
                )
            &&& forall|f: int|
                0 <= f < found.len() ==> is_of_a_splat(
                    primitives,
                    #[trigger] found[f],
                    node,
                    mesh,
                    n as int,
                )
        }),
    decreases n,
{
    if n > 0 {
        let m = (n - 1) as nat;
        lemma_mesh_splats(primitives, accessors, node, mesh, m);
        let prev = mesh_splats(primitives, accessors, node, mesh, m);
        let found = mesh_splats(primitives, accessors, node, mesh, n);
        assert forall|k: int| 0 <= k < n && is_splat_primitive(
            #[trigger] primitives[k],
        ) implies is_found(found, node, mesh, k) by {
            if k < m {
                let f = choose|f: int|
                    0 <= f < prev.len() && is_about(#[trigger] prev[f], node, mesh, k);
                assert(is_about(found[f], node, mesh, k));
            } else {
                assert(is_about(found[found.len() - 1], node, mesh, k));
            }
        }
        assert forall|f: int| 0 <= f < found.len() implies is_of_a_splat(
            primitives,
            #[trigger] found[f],
            node,
            mesh,
            n as int,
        ) by {
            if f < prev.len() {
                assert(is_of_a_splat(primitives, prev[f], node, mesh, m as int));
                let k = choose|k: int|
                    0 <= k < m && is_splat_primitive(#[trigger] primitives[k]) && is_about(
                        prev[f],
                        node,
                        mesh,
                        k,
                    );
                assert(is_splat_primitive(primitives[k]));
            } else {
                assert(is_splat_primitive(primitives[m as int]));
            }
        }
    }
}

proof fn lemma_warned(
    primitives: Seq<Value>,
    list: Seq<MetadataView>,
    node: int,
    mesh: i32,
    n: int,
    i: int,
)
    ensures
        warned(list).len() == list.len(),
        is_found(list, node, mesh, i) ==> is_found(warned(list), node, mesh, i),
        0 <= i < list.len() && is_of_a_splat(primitives, list[i], node, mesh, n) ==> is_of_a_splat(
            primitives,
            warned(list)[i],
            node,
            mesh,
            n,
        ),
        0 <= i < list.len() && list.len() > 1 ==> warned(list)[i].validation_warnings.len() > 0,
{
    let found = warned(list);
    if is_found(list, node, mesh, i) {
        let f = choose|f: int| 0 <= f < list.len() && is_about(#[trigger] list[f], node, mesh, i);
        assert(is_about(found[f], node, mesh, i));
    }
    if 0 <= i < list.len() && is_of_a_splat(primitives, list[i], node, mesh, n) {
        let k = choose|k: int|
            0 <= k < n && is_splat_primitive(#[trigger] primitives[k]) && is_about(
                list[i],
                node,
                mesh,
                k,
            );
        assert(is_splat_primitive(primitives[k]) && is_about(found[i], node, mesh, k));
    }
}

/// Every primitive of a mesh that carries the extension is found, for the node that shows it, and
/// nothing else is; where there are several, each is warned about.
pub proof fn splat_primitives_are_found(
    nodes: Seq<Value>,
    meshes: Seq<Value>,
    accessors: Seq<Accessor>,
    node: int,
    mesh: i32,
    primitives: Seq<Value>,
    i: int,
)
    requires
        0 <= node < nodes.len(),
        nodes[node] is Dict,
        int_under(nodes[node]->Dict_0, "mesh"@) == Some(mesh),
        0 <= mesh < meshes.len(),
        meshes[mesh as int] is Dict,
        list_under(meshes[mesh as int]->Dict_0, "primitives"@) == Some(primitives),
    ensures
        node_splats(nodes, meshes, accessors, node) matches Ok(found) && {
            &&& 0 <= i < primitives.len() && is_splat_primitive(primitives[i]) ==> is_found(
                found,
                node,
                mesh,
                i,
            )
            &&& 0 <= i < found.len() ==> is_of_a_splat(
                primitives,
                found[i],
                node,
                mesh,
                primitives.len() as int,
            )
            &&& 0 <= i < found.len() && found.len() > 1 ==> found[i].validation_warnings.len() > 0
        },
{
    let n = primitives.len();
    lemma_mesh_splats(primitives, accessors, node, mesh, n);
    let list = mesh_splats(primitives, accessors, node, mesh, n);
    lemma_warned(primitives, list, node, mesh, n as int, i);
}

/// Whether a node names a mesh that is not there.
pub open spec fn misses_its_mesh(nodes: Seq<Value>, meshes: Seq<Value>, i: int) -> bool {
    nodes[i] matches Value::Dict(node) && (int_under(node, "mesh"@) matches Some(mesh_index) && (
    mesh_index < 0 || mesh_index >= meshes.len() || !(meshes[mesh_index as int] is Dict)))
}

/// A scene is refused exactly where a node names a mesh that is not there, and the first such node
/// is named with the mesh that it misses.
pub proof fn missing_meshes_are_named(
    nodes: Seq<Value>,
    meshes: Seq<Value>,
    accessors: Seq<Accessor>,
    n: nat,
)
    requires
        n <= nodes.len() <= usize::MAX,
    ensures
        scene_splats(nodes, meshes, accessors, n) is Err <==> exists|i: int|
            0 <= i < n && #[trigger] misses_its_mesh(nodes, meshes, i),
        scene_splats(nodes, meshes, accessors, n) matches Err(missing) ==> {
            &&& missing.node_index < n
            &&& misses_its_mesh(nodes, meshes, missing.node_index as int)
            &&& int_under(nodes[missing.node_index as int]->Dict_0, "mesh"@) == Some(
                missing.mesh_index,
            )
            &&& forall|i: int|
                0 <= i < missing.node_index ==> !#[trigger] misses_its_mesh(nodes, meshes, i)
        },
    decreases n,
{
    if n > 0 {
        missing_meshes_are_named(nodes, meshes, accessors, (n - 1) as nat);
        assert(misses_its_mesh(nodes, meshes, n - 1) <==> node_splats(
            nodes,
            meshes,
            accessors,
            n - 1,
        ) is Err);
        if scene_splats(nodes, meshes, accessors, (n - 1) as nat) is Ok {
            assert forall|i: int| 0 <= i < n - 1 implies !#[trigger] misses_its_mesh(
                nodes,
                meshes,
                i,
            ) by {}
        }
    }
}

/// What the nodes of a scene hold is put together in their order, and nothing is left out.
pub proof fn scenes_hold_what_their_nodes_hold(
    nodes: Seq<Value>,
    meshes: Seq<Value>,
    accessors: Seq<Accessor>,
    n: nat,
    i: int,
    m: MetadataView,
)
    requires
        n <= nodes.len(),
        0 <= i < n,
        scene_splats(nodes, meshes, accessors, n) is Ok,
    ensures
        node_splats(nodes, meshes, accessors, i) is Ok,
        node_splats(nodes, meshes, accessors, i)->Ok_0.contains(m) ==> scene_splats(
            nodes,
            meshes,
            accessors,
            n,
        )->Ok_0.contains(m),
    decreases n,
{
    let prev = scene_splats(nodes, meshes, accessors, (n - 1) as nat);
    let all = scene_splats(nodes, meshes, accessors, n)->Ok_0;
    if i < n - 1 {
        scenes_hold_what_their_nodes_hold(nodes, meshes, accessors, (n - 1) as nat, i, m);
        if prev->Ok_0.contains(m) {
            let k = choose|k: int| 0 <= k < prev->Ok_0.len() && prev->Ok_0[k] == m;
            assert(all[k] == m);
        }
    } else {
        let found = node_splats(nodes, meshes, accessors, i)->Ok_0;
        if found.contains(m) {
            let k = choose|k: int| 0 <= k < found.len() && found[k] == m;
            assert(all[prev->Ok_0.len() + k] == m);
        }
    }
}

/// What a dictionary has under a name is found in it before anything that lies deeper.
pub proof fn own_options_are_found_first(entries: Seq<Entry>, name: Seq<char>, value: Value)
    requires
        lookup(entries, name) == Some(value),
    ensures
        find_value(Value::Dict(entries), name) == Some(value),
{
}

/// Of what lies deeper, the first that has the name is found; nothing is found exactly where none
/// has it.
pub proof fn deeper_options_are_found_in_order(entries: Seq<Entry>, items: Seq<Value>, name: Seq<
    char,
>)
    ensures
        lookup(entries, name) is None ==> (find_value(Value::Dict(entries), name) matches Some(
            found,
        ) ==> exists|i: int|
            0 <= i < entries.len() && find_value((#[trigger] entries[i]).value, name) == Some(found)
                && forall|j: int|
                0 <= j < i ==> find_value((#[trigger] entries[j]).value, name) is None),
        find_value(Value::Dict(entries), name) is None ==> forall|i: int|
            0 <= i < entries.len() ==> find_value((#[trigger] entries[i]).value, name) is None,
        find_value(Value::List(items), name) matches Some(found) ==> exists|i: int|
            0 <= i < items.len() && find_value(#[trigger] items[i], name) == Some(found) && forall|
                j: int,
            |
                0 <= j < i ==> find_value(#[trigger] items[j], name) is None,
        find_value(Value::List(items), name) is None ==> forall|i: int|
            0 <= i < items.len() ==> find_value(#[trigger] items[i], name) is None,
{
    lemma_found_entry(entries, name, entries.len());
    lemma_found_item(items, name, items.len());
}

proof fn lemma_found_entry(entries: Seq<Entry>, name: Seq<char>, n: nat)
    requires
        n <= entries.len(),
    ensures
        find_in_entries(entries, name, n) matches Some(found) ==> exists|i: int|
            0 <= i < n && find_value((#[trigger] entries[i]).value, name) == Some(found) && forall|
                j: int,
            |
                0 <= j < i ==> find_value((#[trigger] entries[j]).value, name) is None,
        find_in_entries(entries, name, n) is None ==> forall|i: int|
            0 <= i < n ==> find_value((#[trigger] entries[i]).value, name) is None,
    decreases n,
{
    if n > 0 {
        lemma_found_entry(entries, name, (n - 1) as nat);
        assert(find_in_entry(entries[n - 1], name) == find_value(entries[n - 1].value, name));
        let before = find_in_entries(entries, name, (n - 1) as nat);
        if let Some(found) = before {
            let i = choose|i: int|
                0 <= i < n - 1 && find_value((#[trigger] entries[i]).value, name) == Some(found)
                    && forall|j: int|
                    0 <= j < i ==> find_value((#[trigger] entries[j]).value, name) is None;
            assert(find_value(entries[i].value, name) == Some(found));
        } else if let Some(found) = find_in_entries(entries, name, n) {
            assert(find_value(entries[n - 1].value, name) == Some(found));
        }
    }
}

proof fn lemma_found_item(items: Seq<Value>, name: Seq<char>, n: nat)
    requires
        n <= items.len(),
    ensures
        find_in_items(items, name, n) matches Some(found) ==> exists|i: int|
            0 <= i < n && find_value(#[trigger] items[i], name) == Some(found) && forall|j: int|
                0 <= j < i ==> find_value(#[trigger] items[j], name) is None,
        find_in_items(items, name, n) is None ==> forall|i: int|
            0 <= i < n ==> find_value(#[trigger] items[i], name) is None,
    decreases n,
{
    if n > 0 {
        lemma_found_item(items, name, (n - 1) as nat);
        let before = find_in_items(items, name, (n - 1) as nat);
        if let Some(found) = before {
            let i = choose|i: int|
                0 <= i < n - 1 && find_value(#[trigger] items[i], name) == Some(found) && forall|
                    j: int,
                |
                    0 <= j < i ==> find_value(#[trigger] items[j], name) is None;
            assert(find_value(items[i], name) == Some(found));
        } else if let Some(found) = find_in_items(items, name, n) {
            assert(find_value(items[n - 1], name) == Some(found));
        }
    }
}

/// An integer option keeps its value as far as 32 bits reach; other kinds of values give none.
pub proof fn options_are_read(number: i64, value: Value)
    ensures
        i32::MIN <= number <= i32::MAX ==> option_int(Value::Int(number)) == Some(number as i32),
        number > i32::MAX ==> option_int(Value::Int(number)) == Some(i32::MAX),
        number < i32::MIN ==> option_int(Value::Int(number)) == Some(i32::MIN),
        !(value is Int) ==> option_int(value) is None,
        value matches Value::Float(double) ==> option_float(value) == Some(double.single),
        !(value is Float) ==> option_float(value) is None,
{
}

/// Nothing is given where none of the three options is.
pub proof fn no_options_give_nothing(options: PreviewImportOptions)
    ensures
        gives_nothing(options) <==> options == (PreviewImportOptions {
            max_splats: None,
            max_splat_radius: None,
            scale_multiplier: None,
        }),
{
}

/// The options of single nodes win over the general ones among them, and both over what was there.
pub proof fn single_nodes_win(options: PreviewImportOptions, subresources: Value)
    ensures
        ({
            let after = merged(options, subresources);
            let splats = int_within(subresources, "gsplat_preview/preview_max_splats"@);
            let radius = float_within(subresources, "gsplat_preview/preview_max_splat_radius"@);
            let scale = float_within(subresources, "gsplat_preview/preview_scale_multiplier"@);
            let all_splats = int_within(subresources, "gsplat/preview_max_splats"@);
            let all_radius = float_within(subresources, "gsplat/preview_max_splat_radius"@);
            let all_scale = float_within(subresources, "gsplat/preview_scale_multiplier"@);
            &&& splats is Some ==> after.max_splats == splats
            &&& splats is None && all_splats is Some ==> after.max_splats == all_splats
            &&& splats is None && all_splats is None ==> after.max_splats == options.max_splats
            &&& radius is Some ==> after.max_splat_radius == radius
            &&& radius is None && all_radius is Some ==> after.max_splat_radius == all_radius
            &&& radius is None && all_radius is None ==> after.max_splat_radius
                == options.max_splat_radius
            &&& scale is Some ==> after.scale_multiplier == scale
            &&& scale is None && all_scale is Some ==> after.scale_multiplier == all_scale
            &&& scale is None && all_scale is None ==> after.scale_multiplier
                == options.scale_multiplier
        }),
{
}

/// Saved parameters give the options under their names, with those of single nodes over them.
pub proof fn saved_parameters_are_read(params: Seq<Entry>)
    ensures
        lookup(params, "_subresources"@) is None ==> {
            let options = saved_options(params);
            &&& lookup(params, "gsplat/preview_max_splats"@) matches Some(value)
                ==> options.max_splats == option_int(value)
            &&& lookup(params, "gsplat/preview_max_splat_radius"@) matches Some(value)
                ==> options.max_splat_radius == option_float(value)
            &&& lookup(params, "gsplat/preview_scale_multiplier"@) matches Some(value)
                ==> options.scale_multiplier == option_float(value)
            &&& lookup(params, "gsplat/preview_max_splats"@) is None ==> options.max_splats is None
            &&& lookup(params, "gsplat/preview_max_splat_radius"@) is None
                ==> options.max_splat_radius is None
            &&& lookup(params, "gsplat/preview_scale_multiplier"@) is None
                ==> options.scale_multiplier is None
        },
        lookup(params, "_subresources"@) matches Some(Value::Dict(entries)) ==> (lookup(
            entries,
            "gsplat_preview/preview_max_splats"@,
        ) matches Some(Value::Int(number)) ==> saved_options(params).max_splats == Some(
            clamped(number),
        )),
{
}

/// Options that are given are set on the node, within their limits; those that are not given leave
/// it as it is.
pub proof fn given_options_are_set(node: NodeView, options: PreviewImportOptions)
    requires
        points_of(node) >= 0,
    ensures
        ({
            let after = with_options(node, options);
            let set = cloud_of(after);
            let before = cloud_of(node);
            &&& options.max_splats matches Some(splats) ==> {
                &&& 0 <= splats <= points_of(node) ==> set.max_preview_splats == splats
                &&& splats > points_of(node) ==> set.max_preview_splats == points_of(node)
                &&& splats < 0 ==> set.max_preview_splats == 0
                &&& after.render_profile == RenderProfile::Custom
            }
            &&& options.max_splats is None ==> set.max_preview_splats == before.max_preview_splats
                && after.render_profile == node.render_profile
            &&& options.max_splat_radius matches Some(radius) ==> {
                &&& (F32 { bits: 0x3a83_126f }).at_most(radius) ==> set.max_preview_splat_radius
                    == radius
                &&& radius.below(F32 { bits: 0x3a83_126f }) ==> set.max_preview_splat_radius.bits
                    == 0x3a83_126f
            }
            &&& options.max_splat_radius is None ==> set.max_preview_splat_radius
                == before.max_preview_splat_radius
            &&& options.scale_multiplier matches Some(scale) ==> {
                &&& (F32 { bits: 0x3c23_d70a }).at_most(scale) ==> set.gaussian_scale_multiplier
                    == scale
                &&& scale.below(F32 { bits: 0x3c23_d70a }) ==> set.gaussian_scale_multiplier.bits
                    == 0x3c23_d70a
            }
            &&& options.scale_multiplier is None ==> set.gaussian_scale_multiplier
                == before.gaussian_scale_multiplier
            &&& set.sh_degree == before.sh_degree
            &&& set.chunk_selection == before.chunk_selection
            &&& set.splat_visible == before.splat_visible
            &&& backend_of(after) == backend_of(node)
            &&& after.asset == node.asset
        }),
{
}

/// The import file of a scene stands beside it, in the directory that is given or as the name says.
pub proof fn import_files_stand_beside_the_scene(
    base: Seq<char>,
    filename: Seq<char>,
    extension: Seq<char>,
)
    ensures
        base.len() == 0 ==> import_path(base, filename, extension) == filename + extension
            + ".import"@,
        base.len() > 0 && base[base.len() - 1] == '/' ==> import_path(base, filename, extension)
            == base + filename + extension + ".import"@,
        base.len() > 0 && base[base.len() - 1] != '/' ==> import_path(base, filename, extension)
            == base.push('/') + filename + extension + ".import"@,
        ends_in(filename, ".gltf"@) || ends_in(filename, ".glb"@) ==> import_paths(base, filename)
            == seq![import_path(base, filename, Seq::empty()), filename + ".import"@],
        !ends_in(filename, ".gltf"@) && !ends_in(filename, ".glb"@) ==> import_paths(base, filename)
            == seq![
            import_path(base, filename, ".gltf"@),
            import_path(base, filename, ".glb"@),
            filename + ".import"@,
        ],
{
    reveal_strlit("/");
    reveal_strlit("");
    assert("/"@ =~= seq!['/']);
    assert(""@ =~= Seq::<char>::empty());
    assert(base + (filename + extension + ".import"@) =~= base + filename + extension + ".import"@);
    assert(base + "/"@ + (filename + extension + ".import"@) =~= base.push('/') + filename
        + extension + ".import"@);
}

/// Whether the node that metadata names is there.
pub open spec fn has_its_node(m: MetadataView, node_count: usize) -> bool {
    m.node_index matches Some(node) && 0 <= node < node_count
}

/// Whether there is something wrong with a cloud: its node is missing, or something was found wrong
/// with its primitive.
pub open spec fn is_faulty(m: MetadataView, node_count: usize) -> bool {
    m.node_index is Some && (!has_its_node(m, node_count) || m.validation_errors.len() > 0)
}

/// Every cloud whose node is there is handed to that node, with all that is known of it; the scene
/// has errors exactly where something is wrong with a cloud, and then there is one to tell.
pub proof fn clouds_reach_their_nodes(list: Seq<MetadataView>, node_count: usize, n: nat)
    requires
        n <= list.len(),
    ensures
        ({
            let parsed = parsed_clouds(list, node_count, n);
            &&& parsed.nodes.len() == parsed.summaries.len()
            &&& forall|i: int|
                0 <= i < n && has_its_node(#[trigger] list[i], node_count) ==> parsed.nodes.contains(
                    (list[i].node_index->0 as usize, metadata_entries(list[i])),
                ) && parsed.summaries.contains(summary_text(list[i]))
            &&& forall|k: int|
                0 <= k < parsed.nodes.len() ==> is_handed_over(
                    list,
                    node_count,
                    n as int,
                    #[trigger] parsed.nodes[k],
                )
            &&& parsed.has_errors <==> exists|i: int|
                0 <= i < n && is_faulty(#[trigger] list[i], node_count)
            &&& parsed.has_errors <==> exists|k: int|
                0 <= k < parsed.notices.len() && (#[trigger] parsed.notices[k]).is_error
        }),
    decreases n,
{
    if n > 0 {
        let m = (n - 1) as nat;
        clouds_reach_their_nodes(list, node_count, m);
        let prev = parsed_clouds(list, node_count, m);
        let parsed = parsed_clouds(list, node_count, n);
        let cloud = list[m as int];
        lemma_with_cloud(prev, cloud, node_count);
        assert forall|i: int|
            0 <= i < n && has_its_node(
                #[trigger] list[i],
                node_count,
            ) implies parsed.nodes.contains(
            (list[i].node_index->0 as usize, metadata_entries(list[i])),
        ) && parsed.summaries.contains(summary_text(list[i])) by {
            let handed = (list[i].node_index->0 as usize, metadata_entries(list[i]));
            if i < m {
                let k = choose|k: int| 0 <= k < prev.nodes.len() && prev.nodes[k] == handed;
                assert(parsed.nodes[k] == handed);
                let s = choose|s: int|
                    0 <= s < prev.summaries.len() && prev.summaries[s] == summary_text(list[i]);
                assert(parsed.summaries[s] == summary_text(list[i]));
            } else {
                assert(parsed.nodes[parsed.nodes.len() - 1] == handed);
                assert(parsed.summaries[parsed.summaries.len() - 1] == summary_text(list[i]));
            }
        }
        assert forall|k: int| 0 <= k < parsed.nodes.len() implies is_handed_over(
            list,
            node_count,
            n as int,
            #[trigger] parsed.nodes[k],
        ) by {
            if k < prev.nodes.len() {
                assert(is_handed_over(list, node_count, m as int, prev.nodes[k]));
                let i = choose|i: int|
                    0 <= i < m && has_its_node(#[trigger] list[i], node_count) && prev.nodes[k] == (
                        list[i].node_index->0 as usize,
                        metadata_entries(list[i]),
                    );
                assert(has_its_node(list[i], node_count));
            } else {
                assert(has_its_node(list[m as int], node_count));
            }
        }
        if prev.has_errors {
            let i = choose|i: int| 0 <= i < m && is_faulty(#[trigger] list[i], node_count);
            assert(is_faulty(list[i], node_count));
            let k = choose|k: int|
                0 <= k < prev.notices.len() && (#[trigger] prev.notices[k]).is_error;
            assert(parsed.notices[k].is_error);
        }
        if is_faulty(cloud, node_count) {
            assert(is_faulty(list[m as int], node_count));
        }
        if parsed.has_errors && !prev.has_errors {
            assert(parsed.notices[prev.notices.len() as int].is_error);
        }
        if exists|k: int| 0 <= k < parsed.notices.len() && (#[trigger] parsed.notices[k]).is_error {
            let k = choose|k: int|
                0 <= k < parsed.notices.len() && (#[trigger] parsed.notices[k]).is_error;
            if k < prev.notices.len() {
                assert(prev.notices[k].is_error);
            }
        }
    }
}

proof fn lemma_with_cloud(prev: ParsedView, m: MetadataView, node_count: usize)
    ensures
        ({
            let next = with_cloud(prev, m, node_count);
            &&& next.notices.len() >= prev.notices.len()
            &&& forall|k: int|
                0 <= k < prev.notices.len() ==> #[trigger] next.notices[k] == prev.notices[k]
            &&& forall|k: int|
                prev.notices.len() <= k < next.notices.len() && (#[trigger] next.notices[k]).is_error
                    ==> is_faulty(m, node_count)
            &&& is_faulty(m, node_count) ==> next.notices.len() > prev.notices.len()
                && next.notices[prev.notices.len() as int].is_error
        }),
{
}

/// Whether what a node is handed is a cloud of the list that names the node.
pub open spec fn is_handed_over(
    list: Seq<MetadataView>,
    node_count: usize,
    n: int,
    handed: (usize, Seq<Entry>),
) -> bool {
    exists|i: int|
        0 <= i < n && has_its_node(#[trigger] list[i], node_count) && handed == (
            list[i].node_index->0 as usize,
            metadata_entries(list[i]),
        )
}

/// Every message about a cloud is told, with its node.
pub proof fn messages_name_their_node(
    is_error: bool,
    before: Seq<char>,
    node: i32,
    messages: Seq<Seq<char>>,
    i: int,
)
    requires
        0 <= i < messages.len(),
    ensures
        notices_about(is_error, before, node, messages).len() == messages.len(),
        notices_about(is_error, before, node, messages)[i].is_error == is_error,
        notices_about(is_error, before, node, messages)[i].text == before + crate::text::int_text(
            node as int,
        ) + ": "@ + messages[i],
{
}

/// What is found for a mesh was noted for that mesh.
pub proof fn found_clouds_are_of_the_mesh(entries: Seq<Value>, mesh_index: i32, from: int)
    requires
        0 <= from,
    ensures
        cloud_of_mesh(entries, mesh_index, from) matches Some(entry) ==> entries.contains(
            Value::Dict(entry),
        ) && lookup(entry, "mesh_index"@) == Some(Value::Int(mesh_index as i64)),
    decreases entries.len() - from,
{
    if from < entries.len() {
        found_clouds_are_of_the_mesh(entries, mesh_index, from + 1);
    }
}

/// The dialog offers its options for scene files, whatever the case of their ending, and where no
/// file is named.
pub proof fn scenes_are_offered_options(path: Seq<char>)
    ensures
        path.len() == 0 ==> offers_options(path),
        offers_options(path) == offers_options(lower_cased(path)),
        ends_in(path, ".gltf"@) ==> offers_options(path),
        ends_in(path, ".glb"@) ==> offers_options(path),
        offers_options(path) && path.len() > 0 ==> ends_in(lower_cased(path), ".gltf"@) || ends_in(
            lower_cased(path),
            ".glb"@,
        ),
{
    reveal_strlit(".gltf");
    reveal_strlit(".glb");
    crate::laws::texts::lower_case_stays(path);
    crate::laws::texts::lower_case_keeps_endings(path, ".gltf"@);
    crate::laws::texts::lower_case_keeps_endings(path, ".glb"@);
}

/// The options of the dialog go by their names, and no name is that of both kinds.
pub proof fn options_go_by_name(option: Seq<char>, category: i32)
    ensures
        names_general_option(option) <==> option == "gsplat/preview_max_splats"@ || option
            == "gsplat/preview_max_splat_radius"@ || option == "gsplat/preview_scale_multiplier"@,
        names_internal_option(option) <==> option == "gsplat_preview/preview_max_splats"@ || option
            == "gsplat_preview/preview_max_splat_radius"@ || option
            == "gsplat_preview/preview_scale_multiplier"@,
        node_like(category) <==> category == 0 || category == 1 || category == 6,
{
}

/// The dialog gives what was entered; where nothing was, all splats are shown at their size.
pub proof fn dialogs_give_what_was_entered(
    max_splats: Value,
    max_splat_radius: Value,
    scale_multiplier: Value,
)
    ensures
        ({
            let options = dialog_options(max_splats, max_splat_radius, scale_multiplier);
            &&& option_int(max_splats) is Some ==> options.max_splats == option_int(max_splats)
            &&& option_int(max_splats) is None ==> options.max_splats == Some(0x7fff_ffffi32)
            &&& option_float(max_splat_radius) is Some ==> options.max_splat_radius == option_float(
                max_splat_radius,
            )
            &&& option_float(max_splat_radius) is None ==> options.max_splat_radius == Some(
                F32 { bits: 0x3ca3_d70a },
            )
            &&& option_float(scale_multiplier) is Some ==> options.scale_multiplier == option_float(
                scale_multiplier,
            )
            &&& option_float(scale_multiplier) is None ==> options.scale_multiplier == Some(
                F32 { bits: 0x3f80_0000 },
            )
        }),
{
}

/// A cloud that is told what is known of it has the points and the fallback of that, never fewer
/// than none, and keeps its splats.
pub proof fn clouds_take_over_what_is_known(asset: AssetView, metadata: MetadataView)
    ensures
        ({
            let after = with_metadata(asset, metadata);
            &&& after.metadata == metadata
            &&& metadata.point_count >= 0 ==> after.point_count == metadata.point_count
            &&& metadata.point_count < 0 ==> after.point_count == 0
            &&& after.fallback_mode == metadata.fallback_mode
            &&& after.payload == asset.payload
            &&& after.local_aabb == asset.local_aabb
            &&& after.chunk_table == asset.chunk_table
            &&& after.pack_index == asset.pack_index
        }),
{
}

/// The numbers of a payload are those that its bytes spell, four bytes each; some numbers of every
/// splat are those at their places in the splat.
pub proof fn payloads_spell_their_numbers(
    asset: AssetView,
    stride: int,
    values: Seq<F32>,
    first: int,
    count: int,
    i: int,
    k: int,
)
    requires
        stride > 0,
        payload_numbers(asset, stride) == Some(values),
    ensures
        asset.payload_layout == "gsplat.interleaved.float32.v1"@,
        values.len() == asset.payload.len() / 4,
        values.len() as int % stride == 0,
        0 <= i < values.len() ==> values[i].bits == word_at(asset.payload, 4 * i),
        0 <= i < values.len() as int / 18 && 0 <= first && 0 <= k < count && first + count <= 18
            ==> fields_of_splats(values, first, count)[i][k] == values[18 * i + first + k],
        fields_of_splats(values, first, count).len() == values.len() as int / 18,
{
}

/// What is known of a cloud is read from a dictionary by name; what is missing there has what
/// stands in for it.
pub proof fn metadata_is_read_by_name(entries: Seq<Entry>)
    ensures
        ({
            let m = dictionary_metadata(entries);
            &&& m.node_index == int_under(entries, "node_index"@)
            &&& m.mesh_index == int_under(entries, "mesh_index"@)
            &&& m.primitive_index == int_under(entries, "primitive_index"@)
            &&& m.kernel == text_under(entries, "kernel"@)
            &&& m.color_space == text_under(entries, "color_space"@)
            &&& m.compression == text_under(entries, "compression"@)
            &&& int_under(entries, "point_count"@) matches Some(count) ==> m.point_count == count
            &&& int_under(entries, "point_count"@) is None ==> m.point_count == 0
            &&& text_under(entries, "source_extension"@) matches Some(text) ==> m.source_extension
                == text
            &&& text_under(entries, "source_extension"@) is None ==> m.source_extension
                == "KHR_gaussian_splatting"@
            &&& text_under(entries, "projection"@) matches Some(text) ==> m.projection == text
            &&& text_under(entries, "projection"@) is None ==> m.projection == "perspective"@
            &&& text_under(entries, "sorting_method"@) matches Some(text) ==> m.sorting_method
                == text
            &&& text_under(entries, "sorting_method"@) is None ==> m.sorting_method
                == "cameraDistance"@
            &&& text_under(entries, "fallback_mode"@) matches Some(text) ==> m.fallback_mode == text
            &&& text_under(entries, "fallback_mode"@) is None ==> m.fallback_mode == "none"@
            &&& bool_under(entries, "has_color_fallback"@) matches Some(flag)
                ==> m.has_color_fallback == flag
            &&& bool_under(entries, "has_color_fallback"@) is None ==> !m.has_color_fallback
            &&& texts_under(entries, "validation_errors"@) matches Some(list)
                ==> m.validation_errors == list
            &&& texts_under(entries, "validation_errors"@) is None ==> m.validation_errors.len()
                == 0
            &&& texts_under(entries, "validation_warnings"@) matches Some(list)
                ==> m.validation_warnings == list
            &&& texts_under(entries, "validation_warnings"@) is None ==> m.validation_warnings.len()
                == 0
            &&& dict_under(entries, "raw_extensions"@) matches Some(inner) ==> m.raw_extensions
                == inner
            &&& dict_under(entries, "raw_extensions"@) is None ==> m.raw_extensions.len() == 0
        }),
{
}

/// Whether a value stands between two words somewhere in a text.
pub open spec fn stands_between(
    text: Seq<char>,
    before: Seq<char>,
    value: Seq<char>,
    after: Seq<char>,
) -> bool {
    exists|a: Seq<char>, b: Seq<char>|
        text == #[trigger] (a + before) + value + #[trigger] (after + b)
}

/// The line about a cloud tells its extension, its places in the scene, its points, and whether it
/// is valid.
pub proof fn summaries_tell_what_is_known(m: MetadataView)
    ensures
        stands_between(summary_text(m), "extension="@, m.source_extension, "; node="@),
        stands_between(summary_text(m), "; node="@, index_text(m.node_index), "; mesh="@),
        stands_between(summary_text(m), "; mesh="@, index_text(m.mesh_index), "; primitive="@),
        stands_between(
            summary_text(m),
            "; primitive="@,
            index_text(m.primitive_index),
            "; points="@,
        ),
        stands_between(summary_text(m), "; points="@, int_text(m.point_count as int), "; kernel="@),
        m.node_index matches Some(node) ==> index_text(m.node_index) == int_text(node as int),
        m.node_index is None ==> index_text(m.node_index) == seq!['-'],
        m.kernel matches Some(kernel) ==> stands_between(
            summary_text(m),
            "; kernel="@,
            kernel,
            "; color_space="@,
        ),
        stands_between(summary_text(m), "; projection="@, m.projection, "; sorting="@),
        stands_between(summary_text(m), "; sorting="@, m.sorting_method, "; compression="@),
        m.validation_errors.len() == 0 ==> ends_in(summary_text(m), "; validity=valid"@),
        m.validation_errors.len() > 0 ==> ends_in(summary_text(m), "; validity=invalid"@),
{
    lemma_summary(m);
    reveal_strlit("-");
    assert("-"@ =~= seq!['-']);
}

proof fn lemma_summary(m: MetadataView)
    ensures
        stands_between(summary_text(m), "extension="@, m.source_extension, "; node="@),
        stands_between(summary_text(m), "; node="@, index_text(m.node_index), "; mesh="@),
        stands_between(summary_text(m), "; mesh="@, index_text(m.mesh_index), "; primitive="@),
        stands_between(
            summary_text(m),
            "; primitive="@,
            index_text(m.primitive_index),
            "; points="@,
        ),
        stands_between(summary_text(m), "; points="@, int_text(m.point_count as int), "; kernel="@),
        m.kernel matches Some(kernel) ==> stands_between(
            summary_text(m),
            "; kernel="@,
            kernel,
            "; color_space="@,
        ),
        stands_between(summary_text(m), "; projection="@, m.projection, "; sorting="@),
        stands_between(summary_text(m), "; sorting="@, m.sorting_method, "; compression="@),
        m.validation_errors.len() == 0 ==> ends_in(summary_text(m), "; validity=valid"@),
        m.validation_errors.len() > 0 ==> ends_in(summary_text(m), "; validity=invalid"@),
{
    let valid = if m.validation_errors.len() == 0 {
        "valid"@
    } else {
        "invalid"@
    };
    let p0 = Seq::<char>::empty();
    let p1 = "extension="@ + m.source_extension;
    let p2 = p1 + "; node="@ + index_text(m.node_index);
    let p3 = p2 + "; mesh="@ + index_text(m.mesh_index);
    let p4 = p3 + "; primitive="@ + index_text(m.primitive_index);
    let p5 = p4 + "; points="@ + int_text(m.point_count as int);
    let p6 = p5 + "; kernel="@ + text_or(m.kernel, "unknown"@);
    let p7 = p6 + "; color_space="@ + text_or(m.color_space, "unknown"@);
    let p8 = p7 + "; projection="@ + m.projection;
    let p9 = p8 + "; sorting="@ + m.sorting_method;
    let p10 = p9 + "; compression="@ + text_or(m.compression, "none"@);
    let p11 = p10 + "; validity="@ + valid;
    let s11 = p0;
    let s10 = "; validity="@ + (valid + s11);
    let s9 = "; compression="@ + (text_or(m.compression, "none"@) + s10);
    let s8 = "; sorting="@ + (m.sorting_method + s9);
    let s7 = "; projection="@ + (m.projection + s8);
    let s6 = "; color_space="@ + (text_or(m.color_space, "unknown"@) + s7);
    let s5 = "; kernel="@ + (text_or(m.kernel, "unknown"@) + s6);
    let s4 = "; points="@ + (int_text(m.point_count as int) + s5);
    let s3 = "; primitive="@ + (index_text(m.primitive_index) + s4);
    let s2 = "; mesh="@ + (index_text(m.mesh_index) + s3);
    let s1 = "; node="@ + (index_text(m.node_index) + s2);
    let text = summary_text(m);
    assert(p11 == text);
    assert(p11 + s11 =~= p11);
    lemma_move(p10, "; validity="@, valid, s11);
    lemma_move(p9, "; compression="@, text_or(m.compression, "none"@), s10);
    lemma_move(p8, "; sorting="@, m.sorting_method, s9);
    lemma_move(p7, "; projection="@, m.projection, s8);
    lemma_move(p6, "; color_space="@, text_or(m.color_space, "unknown"@), s7);
    lemma_move(p5, "; kernel="@, text_or(m.kernel, "unknown"@), s6);
    lemma_move(p4, "; points="@, int_text(m.point_count as int), s5);
    lemma_move(p3, "; primitive="@, index_text(m.primitive_index), s4);
    lemma_move(p2, "; mesh="@, index_text(m.mesh_index), s3);
    lemma_move(p1, "; node="@, index_text(m.node_index), s2);
    assert(p0 + "extension="@ =~= "extension="@);
    lemma_between(p0, "extension="@, m.source_extension, "; node="@, index_text(m.node_index) + s2);
    lemma_between(
        p1,
        "; node="@,
        index_text(m.node_index),
        "; mesh="@,
        index_text(m.mesh_index) + s3,
    );
    lemma_between(
        p2,
        "; mesh="@,
        index_text(m.mesh_index),
        "; primitive="@,
        index_text(m.primitive_index) + s4,
    );
    lemma_between(
        p3,
        "; primitive="@,
        index_text(m.primitive_index),
        "; points="@,
        int_text(m.point_count as int) + s5,
    );
    lemma_between(
        p4,
        "; points="@,
        int_text(m.point_count as int),
        "; kernel="@,
        text_or(m.kernel, "unknown"@) + s6,
    );
    lemma_between(
        p5,
        "; kernel="@,
        text_or(m.kernel, "unknown"@),
        "; color_space="@,
        text_or(m.color_space, "unknown"@) + s7,
    );
    lemma_between(p7, "; projection="@, m.projection, "; sorting="@, m.sorting_method + s9);
    lemma_between(
        p8,
        "; sorting="@,
        m.sorting_method,
        "; compression="@,
        text_or(m.compression, "none"@) + s10,
    );
    reveal_strlit("; validity=");
    reveal_strlit("valid");
    reveal_strlit("invalid");
    reveal_strlit("; validity=valid");
    reveal_strlit("; validity=invalid");
    assert("; validity="@ + "valid"@ =~= "; validity=valid"@);
    assert("; validity="@ + "invalid"@ =~= "; validity=invalid"@);
    let ending = "; validity="@ + valid;
    assert(p11 =~= p10 + ending);
    crate::laws::texts::endings_come_last(p10, ending, text);
}

proof fn lemma_move(p: Seq<char>, word: Seq<char>, value: Seq<char>, rest: Seq<char>)
    ensures
        (p + word + value) + rest == p + (word + (value + rest)),
{
    assert((p + word + value) + rest =~= p + (word + (value + rest)));
}

proof fn lemma_between(
    p: Seq<char>,
    before: Seq<char>,
    value: Seq<char>,
    after: Seq<char>,
    rest: Seq<char>,
)
    ensures
        stands_between((p + before + value) + (after + rest), before, value, after),
{
    assert((p + before) + value + (after + rest) == (p + before + value) + (after + rest));
}

} // verus!
