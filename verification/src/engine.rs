//! What the library takes from the engine bindings: what the ordinals of their enums stand for.

use godot::classes::editor_scene_post_import_plugin::InternalImportCategory;
use godot::classes::gltf_accessor::{GltfAccessorType, GltfComponentType};
use godot::classes::image::Format;
use godot::obj::EngineEnum;
use vstd::prelude::*;

verus! {

/// The shape of one accessor element.
#[derive(Clone, Copy, Debug, PartialEq, Eq, Structural)]
pub enum AccessorType {
    Scalar,
    Vec2,
    Vec3,
    Vec4,
    Mat2,
    Mat3,
    Mat4,
}

/// The accessor type that the engine numbers `ord`.
pub open spec fn accessor_type_of(ord: i32) -> Option<AccessorType> {
    if ord == 0 {
        Some(AccessorType::Scalar)
    } else if ord == 1 {
        Some(AccessorType::Vec2)
    } else if ord == 2 {
        Some(AccessorType::Vec3)
    } else if ord == 3 {
        Some(AccessorType::Vec4)
    } else if ord == 4 {
        Some(AccessorType::Mat2)
    } else if ord == 5 {
        Some(AccessorType::Mat3)
    } else if ord == 6 {
        Some(AccessorType::Mat4)
    } else {
        None
    }
}

/// The engine's name for the accessor type that it numbers `ord`.
pub open spec fn accessor_type_label(ord: i32) -> Seq<char> {
    match accessor_type_of(ord) {
        Some(AccessorType::Scalar) => "SCALAR"@,
        Some(AccessorType::Vec2) => "VEC2"@,
        Some(AccessorType::Vec3) => "VEC3"@,
        Some(AccessorType::Vec4) => "VEC4"@,
        Some(AccessorType::Mat2) => "MAT2"@,
        Some(AccessorType::Mat3) => "MAT3"@,
        Some(AccessorType::Mat4) => "MAT4"@,
        None => Seq::empty(),
    }
}

/// The engine's name for the component type that it numbers `ord`.
pub open spec fn component_type_label(ord: i32) -> Seq<char> {
    if ord == 0 {
        "NONE"@
    } else if ord == 5120 {
        "SIGNED_BYTE"@
    } else if ord == 5121 {
        "UNSIGNED_BYTE"@
    } else if ord == 5122 {
        "SIGNED_SHORT"@
    } else if ord == 5123 {
        "UNSIGNED_SHORT"@
    } else if ord == 5124 {
        "SIGNED_INT"@
    } else if ord == 5125 {
        "UNSIGNED_INT"@
    } else if ord == 5126 {
        "SINGLE_FLOAT"@
    } else if ord == 5130 {
        "DOUBLE_FLOAT"@
    } else if ord == 5131 {
        "HALF_FLOAT"@
    } else if ord == 5134 {
        "SIGNED_LONG"@
    } else if ord == 5135 {
        "UNSIGNED_LONG"@
    } else {
        Seq::empty()
    }
}

/// Calls `GltfAccessorType::try_from_ord`: the ordinals 0 to 6 are SCALAR, VEC2, VEC3, VEC4,
/// MAT2, MAT3 and MAT4, in this order, and no other ordinal is an accessor type.
#[verifier::external_body]
pub(crate) fn accessor_type_from_ord(ord: i32) -> (kind: Option<AccessorType>)
    ensures
        kind == accessor_type_of(ord),
{
    match GltfAccessorType::try_from_ord(ord) {
        Some(GltfAccessorType::SCALAR) => Some(AccessorType::Scalar),
        Some(GltfAccessorType::VEC2) => Some(AccessorType::Vec2),
        Some(GltfAccessorType::VEC3) => Some(AccessorType::Vec3),
        Some(GltfAccessorType::VEC4) => Some(AccessorType::Vec4),
        Some(GltfAccessorType::MAT2) => Some(AccessorType::Mat2),
        Some(GltfAccessorType::MAT3) => Some(AccessorType::Mat3),
        Some(GltfAccessorType::MAT4) => Some(AccessorType::Mat4),
        _ => None,
    }
}

/// Formats a `GltfAccessorType` with its `Debug`, which writes the name of the constant. An
/// ordinal that is no accessor type has no name.
#[verifier::external_body]
pub(crate) fn accessor_type_name(ord: i32) -> (name: String)
    ensures
        name@ == accessor_type_label(ord),
{
    GltfAccessorType::try_from_ord(ord).map(|kind| format!("{:?}", kind)).unwrap_or_default()
}

/// Formats a `GltfComponentType` with its `Debug`, which writes the name of the constant. An
/// ordinal that is no component type has no name.
#[verifier::external_body]
pub(crate) fn component_type_name(ord: i32) -> (name: String)
    ensures
        name@ == component_type_label(ord),
{
    GltfComponentType::try_from_ord(ord).map(|kind| format!("{:?}", kind)).unwrap_or_default()
}

/// Calls `GltfComponentType::SINGLE_FLOAT.ord()`, which is 5126, glTF's own number for it.
#[verifier::external_body]
pub(crate) fn single_float_ord() -> (ord: i32)
    ensures
        ord == 5126,
{
    GltfComponentType::SINGLE_FLOAT.ord()
}

/// Calls `Format::RGBAF.ord()`, which is 11: four single-precision channels.
#[verifier::external_body]
pub(crate) fn rgbaf_format_ord() -> (ord: i32)
    ensures
        ord == 11,
{
    Format::RGBAF.ord()
}

/// Calls `InternalImportCategory::NODE.ord()`, which is 0.
#[verifier::external_body]
pub(crate) fn node_category_ord() -> (ord: i32)
    ensures
        ord == 0,
{
    InternalImportCategory::NODE.ord()
}

/// Calls `InternalImportCategory::MESH_3D_NODE.ord()`, which is 1.
#[verifier::external_body]
pub(crate) fn mesh_3d_node_category_ord() -> (ord: i32)
    ensures
        ord == 1,
{
    InternalImportCategory::MESH_3D_NODE.ord()
}

/// Calls `InternalImportCategory::SKELETON_3D_NODE.ord()`, which is 6.
#[verifier::external_body]
pub(crate) fn skeleton_3d_node_category_ord() -> (ord: i32)
    ensures
        ord == 6,
{
    InternalImportCategory::SKELETON_3D_NODE.ord()
}

} // verus!
