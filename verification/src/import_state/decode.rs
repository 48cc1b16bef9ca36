//! Decoding the accessors of a splat primitive into one interleaved payload.

use crate::bytes::read_word;
use crate::chunking::{
    is_partition, partition_payload, ChunkTable, PartitionedPayload, DEFAULT_CHUNK_SIZE_BITS,
    POINT_STRIDE_FLOATS,
};
use crate::engine::{
    accessor_type_from_ord, accessor_type_label, accessor_type_name, accessor_type_of,
    component_type_label, component_type_name, single_float_ord, AccessorType,
};
use crate::extents::{column, column_extent, highest, lowest};
use crate::floats::{F32, ONE_BITS};
use crate::gsplat_pack::format::float_at;
use crate::gsplat_pack::{sh_count, sh_floats};
use crate::import_state::inspect::{
    accessor_count, attribute_name, coefficient_name, dict_at, dictionary_at, element_count,
    inspect_gsplat_nodes, list_or_empty, metadata_views, missing_mesh_text, scene_splats, Accessor,
    Attribute, MissingMesh,
};
use crate::import_state::{ImportedSplatMetadata, MetadataView, PAYLOAD_LAYOUT_FLOAT32_V1};
use crate::text::{int_text, nat_text, push_int, push_nat};
use crate::variant::{
    dict_array, dict_dictionary, dict_i32, dict_under, int_under, list_under, values_of, Dictionary,
    Entry, Variant,
};
use crate::words::{
    bytes_floats, bytes_to_floats, float_bytes, floats_round_trip, floats_to_bytes,
};
use vstd::prelude::*;
use vstd::string::*;

verus! {

/// A buffer view with its bytes.
#[derive(Clone, Debug, PartialEq, Eq)]
pub struct BufferView {
    pub byte_stride: i64,
    pub data: Vec<u8>,
}

/// Why a splat primitive cannot be decoded.
#[derive(Clone, Copy, Debug, PartialEq, Eq, Structural)]
pub enum DecodeError {
    NodeIndexMissing,
    MeshIndexMissing(i32),
    PrimitiveIndexMissing(i32),
    NodeMissing(i32),
    NodeWithoutMesh(i32),
    MeshMismatch { node: i32, expected: i32, found: i32 },
    MeshMissing(i32),
    PrimitivesMissing(i32),
    PrimitiveMissing { primitive: i32, mesh: i32 },
    AttributesMissing,
    AttributeMissing(Attribute),
    AccessorMissing { attribute: Attribute, accessor: i32 },
    SparseAccessor(Attribute),
    UnexpectedType { attribute: Attribute, accessor_type: i32 },
    UnsupportedComponent { attribute: Attribute, component_type: i32 },
    Normalized(Attribute),
    NoBufferView { attribute: Attribute, accessor: i32 },
    BufferViewMissing { attribute: Attribute, view: i32 },
    InvalidByteStride { attribute: Attribute, byte_stride: i64 },
    StrideTooSmall { attribute: Attribute, stride: usize, element: usize },
    InvalidByteOffset { attribute: Attribute, offset: i64 },
    RangeOverflow(Attribute),
    PastEnd(Attribute),
    NoPoints,
    LengthMismatch,
}

/// What to tell a person about an error.
pub open spec fn decode_error_text(error: DecodeError) -> Seq<char> {
    match error {
        DecodeError::NodeIndexMissing => "Gaussian splat metadata is missing node index."@,
        DecodeError::MeshIndexMissing(node) => "Gaussian splat node "@ + int_text(node as int) + " is missing mesh index."@,
        DecodeError::PrimitiveIndexMissing(node) => "Gaussian splat node "@ + int_text(node as int) + " is missing primitive index."@,
        DecodeError::NodeMissing(node) => "Gaussian splat node "@ + int_text(node as int) + " is missing from glTF JSON."@,
        DecodeError::NodeWithoutMesh(node) => "Gaussian splat node "@ + int_text(node as int) + " does not reference a mesh."@,
        DecodeError::MeshMismatch { node, expected, found } => "Gaussian splat node "@ + int_text(node as int) + " expected mesh "@ + int_text(expected as int) + ", found "@ + int_text(found as int) + "."@,
        DecodeError::MeshMissing(mesh) => "Gaussian splat mesh "@ + int_text(mesh as int) + " is missing from glTF JSON."@,
        DecodeError::PrimitivesMissing(mesh) => "Gaussian splat mesh "@ + int_text(mesh as int) + " is missing primitives."@,
        DecodeError::PrimitiveMissing { primitive, mesh } => "Gaussian splat primitive "@ + int_text(primitive as int) + " is missing from mesh "@ + int_text(mesh as int) + "."@,
        DecodeError::AttributesMissing => "Gaussian splat primitive is missing attributes dictionary."@,
        DecodeError::AttributeMissing(attribute) => "Missing required attribute "@ + attribute_name(attribute) + "."@,
        DecodeError::AccessorMissing { attribute, accessor } => "Attribute "@ + attribute_name(attribute) + " references missing accessor "@ + int_text(accessor as int) + "."@,
        DecodeError::SparseAccessor(attribute) => "Attribute "@ + attribute_name(attribute) + " uses sparse accessor data, which is not supported yet."@,
        DecodeError::UnexpectedType { attribute, accessor_type } => "Attribute "@ + attribute_name(attribute) + " uses unexpected accessor type "@ + accessor_type_label(accessor_type) + "."@,
        DecodeError::UnsupportedComponent { attribute, component_type } => "Attribute "@ + attribute_name(attribute) + " uses unsupported component type "@ + component_type_label(component_type) + ". Only float accessors are supported right now."@,
        DecodeError::Normalized(attribute) => "Attribute "@ + attribute_name(attribute) + " is normalized. Normalized accessors are not supported yet."@,
        DecodeError::NoBufferView { attribute, accessor } => "Attribute "@ + attribute_name(attribute) + " accessor "@ + int_text(accessor as int) + " has no buffer view."@,
        DecodeError::BufferViewMissing { attribute, view } => "Attribute "@ + attribute_name(attribute) + " references missing buffer view "@ + int_text(view as int) + "."@,
        DecodeError::InvalidByteStride { attribute, byte_stride } => "Attribute "@ + attribute_name(attribute) + " has invalid byte stride "@ + int_text(byte_stride as int) + "."@,
        DecodeError::StrideTooSmall { attribute, stride, element } => "Attribute "@ + attribute_name(attribute) + " byte stride "@ + nat_text(stride as int) + " is smaller than element size "@ + nat_text(element as int) + "."@,
        DecodeError::InvalidByteOffset { attribute, offset } => "Attribute "@ + attribute_name(attribute) + " has invalid byte offset "@ + int_text(offset as int) + "."@,
        DecodeError::RangeOverflow(attribute) => "Attribute "@ + attribute_name(attribute) + " byte range overflowed."@,
        DecodeError::PastEnd(attribute) => "Attribute "@ + attribute_name(attribute) + " reads past the end of its buffer view."@,
        DecodeError::NoPoints => "Gaussian splat primitive contains zero points."@,
        DecodeError::LengthMismatch => "Gaussian splat accessor lengths do not match POSITION count."@,
    }
}

impl DecodeError {
    /// What to tell a person about the error.
    pub fn message(&self) -> (text: String)
        ensures
            text@ == decode_error_text(*self),
    {
        let mut text: String = String::new();
        match self {
            DecodeError::NodeIndexMissing => {
                text.append("Gaussian splat metadata is missing node index.");
            },
            DecodeError::MeshIndexMissing(node) => {
                text.append("Gaussian splat node ");
                push_int(&mut text, *node as i64);
                text.append(" is missing mesh index.");
            },
            DecodeError::PrimitiveIndexMissing(node) => {
                text.append("Gaussian splat node ");
                push_int(&mut text, *node as i64);
                text.append(" is missing primitive index.");
            },
            DecodeError::NodeMissing(node) => {
                text.append("Gaussian splat node ");
                push_int(&mut text, *node as i64);
                text.append(" is missing from glTF JSON.");
            },
            DecodeError::NodeWithoutMesh(node) => {
                text.append("Gaussian splat node ");
                push_int(&mut text, *node as i64);
                text.append(" does not reference a mesh.");
            },
            DecodeError::MeshMismatch { node, expected, found } => {
                text.append("Gaussian splat node ");
                push_int(&mut text, *node as i64);
                text.append(" expected mesh ");
                push_int(&mut text, *expected as i64);
                text.append(", found ");
                push_int(&mut text, *found as i64);
                text.append(".");
            },
            DecodeError::MeshMissing(mesh) => {
                text.append("Gaussian splat mesh ");
                push_int(&mut text, *mesh as i64);
                text.append(" is missing from glTF JSON.");
            },
            DecodeError::PrimitivesMissing(mesh) => {
                text.append("Gaussian splat mesh ");
                push_int(&mut text, *mesh as i64);
                text.append(" is missing primitives.");
            },
            DecodeError::PrimitiveMissing { primitive, mesh } => {
                text.append("Gaussian splat primitive ");
                push_int(&mut text, *primitive as i64);
                text.append(" is missing from mesh ");
                push_int(&mut text, *mesh as i64);
                text.append(".");
            },
            DecodeError::AttributesMissing => {
                text.append("Gaussian splat primitive is missing attributes dictionary.");
            },
            DecodeError::AttributeMissing(attribute) => {
                text.append("Missing required attribute ");
                text.append(attribute.name());
                text.append(".");
            },
            DecodeError::AccessorMissing { attribute, accessor } => {
                text.append("Attribute ");
                text.append(attribute.name());
                text.append(" references missing accessor ");
                push_int(&mut text, *accessor as i64);
                text.append(".");
            },
            DecodeError::SparseAccessor(attribute) => {
                text.append("Attribute ");
                text.append(attribute.name());
                text.append(" uses sparse accessor data, which is not supported yet.");
            },
            DecodeError::UnexpectedType { attribute, accessor_type } => {
                text.append("Attribute ");
                text.append(attribute.name());
                text.append(" uses unexpected accessor type ");
                text.append(accessor_type_name(*accessor_type).as_str());
                text.append(".");
            },
            DecodeError::UnsupportedComponent { attribute, component_type } => {
                text.append("Attribute ");
                text.append(attribute.name());
                text.append(" uses unsupported component type ");
                text.append(component_type_name(*component_type).as_str());
                text.append(". Only float accessors are supported right now.");
            },
            DecodeError::Normalized(attribute) => {
                text.append("Attribute ");
                text.append(attribute.name());
                text.append(" is normalized. Normalized accessors are not supported yet.");
            },
            DecodeError::NoBufferView { attribute, accessor } => {
                text.append("Attribute ");
                text.append(attribute.name());
                text.append(" accessor ");
                push_int(&mut text, *accessor as i64);
                text.append(" has no buffer view.");
            },
            DecodeError::BufferViewMissing { attribute, view } => {
                text.append("Attribute ");
                text.append(attribute.name());
                text.append(" references missing buffer view ");
                push_int(&mut text, *view as i64);
                text.append(".");
            },
            DecodeError::InvalidByteStride { attribute, byte_stride } => {
                text.append("Attribute ");
                text.append(attribute.name());
                text.append(" has invalid byte stride ");
                push_int(&mut text, *byte_stride as i64);
                text.append(".");
            },
            DecodeError::StrideTooSmall { attribute, stride, element } => {
                text.append("Attribute ");
                text.append(attribute.name());
                text.append(" byte stride ");
                push_nat(&mut text, *stride as u64);
                text.append(" is smaller than element size ");
                push_nat(&mut text, *element as u64);
                text.append(".");
            },
            DecodeError::InvalidByteOffset { attribute, offset } => {
                text.append("Attribute ");
                text.append(attribute.name());
                text.append(" has invalid byte offset ");
                push_int(&mut text, *offset as i64);
                text.append(".");
            },
            DecodeError::RangeOverflow(attribute) => {
                text.append("Attribute ");
                text.append(attribute.name());
                text.append(" byte range overflowed.");
            },
            DecodeError::PastEnd(attribute) => {
                text.append("Attribute ");
                text.append(attribute.name());
                text.append(" reads past the end of its buffer view.");
            },
            DecodeError::NoPoints => {
                text.append("Gaussian splat primitive contains zero points.");
            },
            DecodeError::LengthMismatch => {
                text.append("Gaussian splat accessor lengths do not match POSITION count.");
            },
        }
        assert(text@ =~= decode_error_text(*self));
        text
    }
}

/// The numbers of one element.
pub open spec fn component_count(kind: AccessorType) -> int {
    match kind {
        AccessorType::Scalar => 1,
        AccessorType::Vec2 => 2,
        AccessorType::Vec3 => 3,
        AccessorType::Vec4 => 4,
        AccessorType::Mat2 => 4,
        AccessorType::Mat3 => 9,
        AccessorType::Mat4 => 16,
    }
}

/// The numbers of one element.
pub fn accessor_component_count(kind: AccessorType) -> (count: usize)
    ensures
        count == component_count(kind),
        1 <= count <= 16,
{
    match kind {
        AccessorType::Scalar => 1,
        AccessorType::Vec2 => 2,
        AccessorType::Vec3 => 3,
        AccessorType::Vec4 => 4,
        AccessorType::Mat2 => 4,
        AccessorType::Mat3 => 9,
        AccessorType::Mat4 => 16,
    }
}

/// The numbers of all elements, read from the bytes of the buffer view.
pub open spec fn strided_floats(
    bytes: Seq<u8>,
    base: int,
    stride: int,
    components: int,
    count: int,
) -> Seq<F32> {
    Seq::new(
        (count * components) as nat,
        |i: int| float_at(bytes, base + (i / components) * stride + 4 * (i % components)),
    )
}

/// The elements that an accessor says it has, none if it says a negative number.
pub open spec fn stated_count(accessor: Accessor) -> int {
    if accessor.count < 0 {
        0
    } else {
        accessor.count as int
    }
}

/// What is wrong with the accessor itself, apart from where its bytes are.
pub open spec fn accessor_fault(
    accessor: Accessor,
    index: i32,
    attribute: Attribute,
    expected: Seq<AccessorType>,
) -> Option<DecodeError> {
    let kind = accessor_type_of(accessor.accessor_type);
    if accessor.sparse_count != 0 {
        Some(DecodeError::SparseAccessor(attribute))
    } else if kind is None || !expected.contains(kind->0) {
        Some(
            DecodeError::UnexpectedType { attribute, accessor_type: accessor.accessor_type },
        )
    } else if accessor.component_type != 5126 {
        Some(
            DecodeError::UnsupportedComponent {
                attribute,
                component_type: accessor.component_type,
            },
        )
    } else if accessor.normalized {
        Some(DecodeError::Normalized(attribute))
    } else if accessor.buffer_view < 0 {
        Some(DecodeError::NoBufferView { attribute, accessor: index })
    } else {
        None
    }
}

/// The bytes from one element to the next: what the view says, or the size of an element.
pub open spec fn effective_byte_stride(view: BufferView, element: int) -> int {
    if view.byte_stride <= 0 {
        element
    } else {
        view.byte_stride as int
    }
}

/// What is wrong with where the bytes of the accessor are.
pub open spec fn range_fault(accessor: Accessor, view: BufferView, attribute: Attribute) -> Option<
    DecodeError,
> {
    let element = 4 * component_count(accessor_type_of(accessor.accessor_type)->0);
    let stride = effective_byte_stride(view, element);
    let count = stated_count(accessor);
    let steps = if count == 0 {
        0
    } else {
        count - 1
    };
    let needed = accessor.byte_offset + steps * stride + element;
    if stride > usize::MAX {
        Some(DecodeError::InvalidByteStride { attribute, byte_stride: view.byte_stride })
    } else if stride < element {
        Some(
            DecodeError::StrideTooSmall {
                attribute,
                stride: stride as usize,
                element: element as usize,
            },
        )
    } else if accessor.byte_offset < 0 || accessor.byte_offset > usize::MAX {
        Some(DecodeError::InvalidByteOffset { attribute, offset: accessor.byte_offset })
    } else if needed > usize::MAX {
        Some(DecodeError::RangeOverflow(attribute))
    } else if needed > view.data@.len() {
        Some(DecodeError::PastEnd(attribute))
    } else {
        None
    }
}

/// What decoding an accessor gives.
pub open spec fn decoded_accessor(
    accessors: Seq<Accessor>,
    views: Seq<BufferView>,
    index: i32,
    attribute: Attribute,
    expected: Seq<AccessorType>,
) -> Result<Seq<F32>, DecodeError> {
    if !(0 <= index < accessors.len()) {
        Err(DecodeError::AccessorMissing { attribute, accessor: index })
    } else {
        let accessor = accessors[index as int];
        match accessor_fault(accessor, index, attribute, expected) {
            Some(error) => Err(error),
            None => if accessor.buffer_view >= views.len() {
                Err(DecodeError::BufferViewMissing { attribute, view: accessor.buffer_view })
            } else {
                let view = views[accessor.buffer_view as int];
                match range_fault(accessor, view, attribute) {
                    Some(error) => Err(error),
                    None => {
                        let components = component_count(
                            accessor_type_of(accessor.accessor_type)->0,
                        );
                        Ok(
                            strided_floats(
                                view.data@,
                                accessor.byte_offset as int,
                                effective_byte_stride(view, 4 * components),
                                components,
                                stated_count(accessor),
                            ),
                        )
                    },
                }
            },
        }
    }
}

/// An outcome with its numbers taken by their contents.
pub open spec fn floats_outcome(result: Result<Vec<F32>, DecodeError>) -> Result<
    Seq<F32>,
    DecodeError,
> {
    match result {
        Ok(values) => Ok(values@),
        Err(error) => Err(error),
    }
}

/// Whether a type is among those expected.
fn is_expected(kind: AccessorType, expected: &[AccessorType]) -> (result: bool)
    ensures
        result == expected@.contains(kind),
{
    let mut i: usize = 0;
    while i < expected.len()
        invariant
            i <= expected@.len(),
            forall|k: int| 0 <= k < i ==> #[trigger] expected@[k] != kind,
        decreases expected@.len() - i,
    {
        if expected[i] == kind {
            return true;
        }
        i = i + 1;
    }
    false
}

/// Where element `e` of a strided run starts, it ends within the bytes.
proof fn lemma_element_within(e: int, count: int, stride: int, base: int, element: int, len: int)
    requires
        0 <= e < count,
        0 <= base,
        0 <= element <= stride,
        base + (count - 1) * stride + element <= len,
    ensures
        0 <= e * stride,
        base + e * stride + element <= len,
{
    assert(0 <= e * stride <= (count - 1) * stride) by (nonlinear_arith)
        requires
            0 <= e <= count - 1,
            0 <= stride,
    ;
}

/// The place of a component in a run of elements.
proof fn lemma_component_place(e: int, k: int, components: int)
    requires
        components > 0,
        0 <= e,
        0 <= k < components,
    ensures
        (e * components + k) / components == e,
        (e * components + k) % components == k,
{
    vstd::arithmetic::div_mod::lemma_fundamental_div_mod_converse(
        e * components + k,
        components,
        e,
        k,
    );
}

/// Reads the numbers of all elements.
fn read_strided(bytes: &Vec<u8>, base: usize, stride: usize, components: usize, count: usize) -> (values:
    Vec<F32>)
    requires
        1 <= components <= 16,
        4 * components <= stride,
        count > 0 ==> base + (count - 1) * stride + 4 * components <= bytes@.len(),
    ensures
        values@ == strided_floats(
            bytes@,
            base as int,
            stride as int,
            components as int,
            count as int,
        ),
{
    let mut values: Vec<F32> = Vec::new();
    let ghost want = strided_floats(
        bytes@,
        base as int,
        stride as int,
        components as int,
        count as int,
    );
    let mut e: usize = 0;
    assert(bytes.len() <= usize::MAX);
    assert(0 * components == 0) by (nonlinear_arith);
    while e < count
        invariant
            e <= count,
            1 <= components <= 16,
            4 * components <= stride,
            count > 0 ==> base + (count - 1) * stride + 4 * components <= bytes@.len()
                <= usize::MAX,
            want == strided_floats(
                bytes@,
                base as int,
                stride as int,
                components as int,
                count as int,
            ),
            values@.len() == e * components,
            want.len() == count * components,
            forall|i: int| 0 <= i < values@.len() ==> #[trigger] values@[i] == want[i],
        decreases count - e,
    {
        proof {
            lemma_element_within(
                e as int,
                count as int,
                stride as int,
                base as int,
                4 * components,
                bytes@.len() as int,
            );
            assert((e + 1) * components == e * components + components) by (nonlinear_arith);
            assert((e + 1) * components <= count * components) by (nonlinear_arith)
                requires
                    e + 1 <= count,
                    components >= 0,
            ;
        }
        let start: usize = base + e * stride;
        let mut k: usize = 0;
        while k < components
            invariant
                e < count,
                k <= components <= 16,
                start == base + e * stride,
                start + 4 * components <= bytes@.len() <= usize::MAX,
                want == strided_floats(
                    bytes@,
                    base as int,
                    stride as int,
                    components as int,
                    count as int,
                ),
                values@.len() == e * components + k,
                want.len() == count * components,
                (e + 1) * components == e * components + components,
                (e + 1) * components <= count * components,
                forall|i: int| 0 <= i < values@.len() ==> #[trigger] values@[i] == want[i],
            decreases components - k,
        {
            let bits: u32 = read_word(bytes.as_slice(), start + 4 * k);
            proof {
                lemma_component_place(e as int, k as int, components as int);
                assert(want[e * components + k] == float_at(bytes@, start + 4 * k));
            }
            values.push(F32 { bits });
            k = k + 1;
        }
        e = e + 1;
    }
    assert(values@ =~= want);
    values
}

/// Decodes the numbers of an accessor.
pub fn decode_float_accessor(
    accessors: &Vec<Accessor>,
    buffer_views: &Vec<BufferView>,
    accessor_index: i32,
    attribute: Attribute,
    expected_types: &[AccessorType],
) -> (result: Result<Vec<F32>, DecodeError>)
    ensures
        floats_outcome(result) == decoded_accessor(
            accessors@,
            buffer_views@,
            accessor_index,
            attribute,
            expected_types@,
        ),
{
    if accessor_index < 0 || accessor_index as usize >= accessors.len() {
        return Err(DecodeError::AccessorMissing { attribute, accessor: accessor_index });
    }
    let accessor: Accessor = accessors[accessor_index as usize];
    if accessor.sparse_count != 0 {
        return Err(DecodeError::SparseAccessor(attribute));
    }
    let unexpected = DecodeError::UnexpectedType {
        attribute,
        accessor_type: accessor.accessor_type,
    };
    let kind: AccessorType = match accessor_type_from_ord(accessor.accessor_type) {
        Some(kind) => kind,
        None => return Err(unexpected),
    };
    if !is_expected(kind, expected_types) {
        return Err(unexpected);
    }
    if accessor.component_type != single_float_ord() {
        return Err(
            DecodeError::UnsupportedComponent {
                attribute,
                component_type: accessor.component_type,
            },
        );
    }
    if accessor.normalized {
        return Err(DecodeError::Normalized(attribute));
    }
    if accessor.buffer_view < 0 {
        return Err(DecodeError::NoBufferView { attribute, accessor: accessor_index });
    }
    if accessor.buffer_view as usize >= buffer_views.len() {
        return Err(DecodeError::BufferViewMissing { attribute, view: accessor.buffer_view });
    }
    let view: &BufferView = &buffer_views[accessor.buffer_view as usize];
    let components: usize = accessor_component_count(kind);
    let element: usize = 4 * components;
    let stride: u64 = if view.byte_stride <= 0 {
        element as u64
    } else {
        view.byte_stride as u64
    };
    if stride > usize::MAX as u64 {
        return Err(DecodeError::InvalidByteStride { attribute, byte_stride: view.byte_stride });
    }
    if stride < element as u64 {
        return Err(
            DecodeError::StrideTooSmall { attribute, stride: stride as usize, element },
        );
    }
    if accessor.byte_offset < 0 || accessor.byte_offset as u64 > usize::MAX as u64 {
        return Err(
            DecodeError::InvalidByteOffset { attribute, offset: accessor.byte_offset },
        );
    }
    let count: u64 = if accessor.count < 0 {
        0
    } else {
        accessor.count as u64
    };
    let steps: u64 = if count == 0 {
        0
    } else {
        count - 1
    };
    assert(steps as u128 * stride as u128 <= 0xffff_ffff_ffff_ffff * 0xffff_ffff_ffff_ffff)
        by (nonlinear_arith)
        requires
            steps <= 0xffff_ffff_ffff_ffff,
            stride <= 0xffff_ffff_ffff_ffff,
    ;
    let span: u128 = steps as u128 * stride as u128;
    let needed: u128 = accessor.byte_offset as u128 + span + element as u128;
    if needed > usize::MAX as u128 {
        return Err(DecodeError::RangeOverflow(attribute));
    }
    if needed > view.data.len() as u128 {
        return Err(DecodeError::PastEnd(attribute));
    }
    proof {
        assert(steps <= span) by (nonlinear_arith)
            requires
                span == steps as u128 * stride as u128,
                stride >= 1,
        ;
    }
    Ok(
        read_strided(
            &view.data,
            accessor.byte_offset as usize,
            stride as usize,
            components,
            count as usize,
        ),
    )
}

/// A decoded splat cloud. The bounds are those of the splat centers.
#[derive(Clone, Debug)]
pub struct DecodedSplatData {
    pub point_count: i32,
    pub payload_layout: String,
    pub payload: Vec<u8>,
    pub center_min: [F32; 3],
    pub center_max: [F32; 3],
    pub chunk_table: Option<ChunkTable>,
    pub sh_degree_available: i32,
}

/// The primitive at the given indices of a scene.
pub open spec fn primitive_entries(
    json: Seq<Entry>,
    node_index: i32,
    mesh_index: i32,
    primitive_index: i32,
) -> Result<Seq<Entry>, DecodeError> {
    match dict_at(list_or_empty(json, "nodes"@), node_index as int) {
        None => Err(DecodeError::NodeMissing(node_index)),
        Some(node) => match int_under(node, "mesh"@) {
            None => Err(DecodeError::NodeWithoutMesh(node_index)),
            Some(found) => if found != mesh_index {
                Err(DecodeError::MeshMismatch { node: node_index, expected: mesh_index, found })
            } else {
                match dict_at(list_or_empty(json, "meshes"@), mesh_index as int) {
                    None => Err(DecodeError::MeshMissing(mesh_index)),
                    Some(mesh) => match list_under(mesh, "primitives"@) {
                        None => Err(DecodeError::PrimitivesMissing(mesh_index)),
                        Some(primitives) => match dict_at(primitives, primitive_index as int) {
                            None => Err(
                                DecodeError::PrimitiveMissing {
                                    primitive: primitive_index,
                                    mesh: mesh_index,
                                },
                            ),
                            Some(primitive) => Ok(primitive),
                        },
                    },
                }
            },
        },
    }
}

/// The dictionary at an index of a list; there is none at a negative index.
fn dictionary_at_i32(list: &Vec<Variant>, index: i32) -> (dict: Option<&Dictionary>)
    ensures
        match dict {
            Some(dict) => dict_at(values_of(list@), index as int) == Some(dict@),
            None => dict_at(values_of(list@), index as int) == None::<Seq<Entry>>,
        },
{
    if index < 0 {
        None
    } else {
        dictionary_at(list, index as usize)
    }
}

/// The primitive at the given indices of a scene.
pub fn primitive_dict_for_indices<'a>(
    json: &'a Dictionary,
    node_index: i32,
    mesh_index: i32,
    primitive_index: i32,
) -> (result: Result<&'a Dictionary, DecodeError>)
    ensures
        match result {
            Ok(primitive) => primitive_entries(json@, node_index, mesh_index, primitive_index)
                == Ok::<Seq<Entry>, DecodeError>(primitive@),
            Err(error) => primitive_entries(json@, node_index, mesh_index, primitive_index) == Err::<
                Seq<Entry>,
                DecodeError,
            >(error),
        },
{
    let node: Option<&'a Dictionary> = match dict_array(json, "nodes") {
        Some(nodes) => dictionary_at_i32(nodes, node_index),
        None => None,
    };
    let node: &'a Dictionary = match node {
        Some(node) => node,
        None => return Err(DecodeError::NodeMissing(node_index)),
    };
    let found: i32 = match dict_i32(node, "mesh") {
        Some(found) => found,
        None => return Err(DecodeError::NodeWithoutMesh(node_index)),
    };
    if found != mesh_index {
        return Err(
            DecodeError::MeshMismatch { node: node_index, expected: mesh_index, found },
        );
    }
    let mesh: Option<&'a Dictionary> = match dict_array(json, "meshes") {
        Some(meshes) => dictionary_at_i32(meshes, mesh_index),
        None => None,
    };
    let mesh: &'a Dictionary = match mesh {
        Some(mesh) => mesh,
        None => return Err(DecodeError::MeshMissing(mesh_index)),
    };
    let primitives: &'a Vec<Variant> = match dict_array(mesh, "primitives") {
        Some(primitives) => primitives,
        None => return Err(DecodeError::PrimitivesMissing(mesh_index)),
    };
    match dictionary_at_i32(primitives, primitive_index) {
        Some(primitive) => Ok(primitive),
        None => Err(
            DecodeError::PrimitiveMissing { primitive: primitive_index, mesh: mesh_index },
        ),
    }
}

/// What decoding a required attribute gives.
pub open spec fn decoded_required(
    attributes: Seq<Entry>,
    accessors: Seq<Accessor>,
    views: Seq<BufferView>,
    attribute: Attribute,
    kind: AccessorType,
) -> Result<Seq<F32>, DecodeError> {
    match int_under(attributes, attribute_name(attribute)) {
        None => Err(DecodeError::AttributeMissing(attribute)),
        Some(index) => decoded_accessor(accessors, views, index, attribute, seq![kind]),
    }
}

/// Decodes a required attribute.
pub fn decode_required_vec_accessor(
    accessors: &Vec<Accessor>,
    buffer_views: &Vec<BufferView>,
    attributes: &Dictionary,
    attribute: Attribute,
    expected_type: AccessorType,
) -> (result: Result<Vec<F32>, DecodeError>)
    ensures
        floats_outcome(result) == decoded_required(
            attributes@,
            accessors@,
            buffer_views@,
            attribute,
            expected_type,
        ),
{
    match dict_i32(attributes, attribute.name()) {
        Some(index) => {
            let expected: [AccessorType; 1] = [expected_type];
            assert(expected@ =~= seq![expected_type]);
            decode_float_accessor(accessors, buffer_views, index, attribute, expected.as_slice())
        },
        None => Err(DecodeError::AttributeMissing(attribute)),
    }
}

/// Opaque white for `n` points.
pub open spec fn white(n: int) -> Seq<F32> {
    Seq::new((4 * n) as nat, |i: int| F32 { bits: ONE_BITS })
}

/// Colors of three channels with an opaque fourth.
pub open spec fn with_alpha(values: Seq<F32>) -> Seq<F32> {
    Seq::new(
        4 * (values.len() / 3),
        |i: int|
            if i % 4 == 3 {
                F32 { bits: ONE_BITS }
            } else {
                values[3 * (i / 4) + i % 4]
            },
    )
}

/// The points that the positions are said to have, none where nothing or a negative number is
/// said.
pub open spec fn position_count(attributes: Seq<Entry>, accessors: Seq<Accessor>) -> int {
    match int_under(attributes, "POSITION"@) {
        Some(index) => match element_count(accessors, index) {
            Some(count) => if count > 0 {
                count as int
            } else {
                0
            },
            None => 0,
        },
        None => 0,
    }
}

/// What decoding the colors gives: white where there are none.
pub open spec fn decoded_colors(
    attributes: Seq<Entry>,
    accessors: Seq<Accessor>,
    views: Seq<BufferView>,
) -> Result<Seq<F32>, DecodeError> {
    match int_under(attributes, "COLOR_0"@) {
        None => Ok(white(position_count(attributes, accessors))),
        Some(index) => match decoded_accessor(
            accessors,
            views,
            index,
            Attribute::Color,
            seq![AccessorType::Vec3, AccessorType::Vec4],
        ) {
            Err(error) => Err(error),
            Ok(values) => if accessor_type_of(accessors[index as int].accessor_type) == Some(
                AccessorType::Vec4,
            ) {
                Ok(values)
            } else {
                Ok(with_alpha(values))
            },
        },
    }
}

/// Opaque white for `n` points.
fn white_colors(n: usize) -> (colors: Vec<F32>)
    ensures
        colors@ == white(n as int),
{
    let mut colors: Vec<F32> = Vec::new();
    let one = F32 { bits: ONE_BITS };
    let mut i: usize = 0;
    while i < n
        invariant
            i <= n,
            one.bits == ONE_BITS,
            colors@ == white(i as int),
        decreases n - i,
    {
        colors.push(one);
        colors.push(one);
        colors.push(one);
        colors.push(one);
        i = i + 1;
        assert(colors@ =~= white(i as int));
    }
    colors
}

/// Adds an opaque fourth channel.
fn add_alpha(values: &Vec<F32>) -> (colors: Vec<F32>)
    ensures
        colors@ == with_alpha(values@),
{
    let mut colors: Vec<F32> = Vec::new();
    let n: usize = values.len() / 3;
    let mut i: usize = 0;
    while i < n
        invariant
            i <= n == values@.len() / 3,
            colors@.len() == 4 * i,
            forall|k: int| 0 <= k < colors@.len() ==> #[trigger] colors@[k] == with_alpha(values@)[k],
        decreases n - i,
    {
        assert(3 * i + 2 < values.len());
        colors.push(values[3 * i]);
        colors.push(values[3 * i + 1]);
        colors.push(values[3 * i + 2]);
        colors.push(F32 { bits: ONE_BITS });
        i = i + 1;
    }
    assert(colors@ =~= with_alpha(values@));
    colors
}

/// Decodes the colors.
pub fn decode_optional_color_accessor(
    accessors: &Vec<Accessor>,
    buffer_views: &Vec<BufferView>,
    attributes: &Dictionary,
) -> (result: Result<Vec<F32>, DecodeError>)
    ensures
        floats_outcome(result) == decoded_colors(attributes@, accessors@, buffer_views@),
{
    let index: i32 = match dict_i32(attributes, "COLOR_0") {
        Some(index) => index,
        None => {
            let count: Option<i32> = match dict_i32(attributes, "POSITION") {
                Some(index) => accessor_count(accessors, index),
                None => None,
            };
            let n: usize = match count {
                Some(count) => if count > 0 {
                    count as usize
                } else {
                    0
                },
                None => 0,
            };
            return Ok(white_colors(n));
        },
    };
    let expected: [AccessorType; 2] = [AccessorType::Vec3, AccessorType::Vec4];
    assert(expected@ =~= seq![AccessorType::Vec3, AccessorType::Vec4]);
    let values: Vec<F32> = match decode_float_accessor(
        accessors,
        buffer_views,
        index,
        Attribute::Color,
        expected.as_slice(),
    ) {
        Ok(values) => values,
        Err(error) => return Err(error),
    };
    let wide: bool = match accessor_type_from_ord(accessors[index as usize].accessor_type) {
        Some(kind) => kind == AccessorType::Vec4,
        None => false,
    };
    if wide {
        Ok(values)
    } else {
        Ok(add_alpha(&values))
    }
}

/// The decoded attributes of a splat cloud.
#[verifier::ext_equal]
pub ghost struct SplatFields {
    pub positions: Seq<F32>,
    pub rotations: Seq<F32>,
    pub scales: Seq<F32>,
    pub opacities: Seq<F32>,
    pub sh0: Seq<F32>,
    pub colors: Seq<F32>,
    /// The higher-order coefficients, each for all points.
    pub coefficients: Seq<Seq<F32>>,
}

/// The numbers of one point: the core fields, and three for every coefficient.
pub open spec fn splat_width(fields: SplatFields) -> int {
    18 + 3 * fields.coefficients.len() as int
}

/// Field `f` of point `p`: position, rotation, scale, opacity, base color, color, coefficients.
pub open spec fn splat_field(fields: SplatFields, p: int, f: int) -> F32 {
    if f < 3 {
        fields.positions[3 * p + f]
    } else if f < 7 {
        fields.rotations[4 * p + f - 3]
    } else if f < 10 {
        fields.scales[3 * p + f - 7]
    } else if f < 11 {
        fields.opacities[p]
    } else if f < 14 {
        fields.sh0[3 * p + f - 11]
    } else if f < 18 {
        fields.colors[4 * p + f - 14]
    } else {
        fields.coefficients[(f - 18) / 3][3 * p + (f - 18) % 3]
    }
}

/// The payload of `n` points, all fields of a point together.
pub open spec fn interleaved(fields: SplatFields, n: int) -> Seq<F32> {
    let width = splat_width(fields);
    Seq::new((width * n) as nat, |i: int| splat_field(fields, i / width, i % width))
}

/// Whether an accessor is named for each of the first `n` coefficients.
pub open spec fn names_coefficients(attributes: Seq<Entry>, n: int) -> bool {
    forall|k: int|
        0 <= k < n ==> int_under(attributes, #[trigger] coefficient_name(k)) is Some
}

/// The highest degree up to which all coefficients are there.
pub open spec fn degree_of(attributes: Seq<Entry>) -> i32 {
    if names_coefficients(attributes, 15) {
        3
    } else if names_coefficients(attributes, 8) {
        2
    } else if names_coefficients(attributes, 3) {
        1
    } else {
        0
    }
}

/// What decoding the first `n` coefficients gives.
pub open spec fn decoded_coefficients(
    attributes: Seq<Entry>,
    accessors: Seq<Accessor>,
    views: Seq<BufferView>,
    n: nat,
) -> Result<Seq<Seq<F32>>, DecodeError>
    decreases n,
{
    if n == 0 {
        Ok(Seq::empty())
    } else {
        match decoded_coefficients(attributes, accessors, views, (n - 1) as nat) {
            Err(error) => Err(error),
            Ok(done) => match decoded_required(
                attributes,
                accessors,
                views,
                Attribute::Coefficient((n - 1) as u8),
                AccessorType::Vec3,
            ) {
                Err(error) => Err(error),
                Ok(values) => Ok(done.push(values)),
            },
        }
    }
}

/// The decoded attributes of a splat cloud, or the first of them that cannot be decoded.
pub open spec fn decoded_fields(
    attributes: Seq<Entry>,
    accessors: Seq<Accessor>,
    views: Seq<BufferView>,
) -> Result<SplatFields, DecodeError> {
    match decoded_required(
        attributes,
        accessors,
        views,
        Attribute::Position,
        AccessorType::Vec3,
    ) {
        Err(error) => Err(error),
        Ok(positions) => match decoded_required(
            attributes,
            accessors,
            views,
            Attribute::Rotation,
            AccessorType::Vec4,
        ) {
            Err(error) => Err(error),
            Ok(rotations) => match decoded_required(
                attributes,
                accessors,
                views,
                Attribute::Scale,
                AccessorType::Vec3,
            ) {
                Err(error) => Err(error),
                Ok(scales) => match decoded_required(
                    attributes,
                    accessors,
                    views,
                    Attribute::Opacity,
                    AccessorType::Scalar,
                ) {
                    Err(error) => Err(error),
                    Ok(opacities) => match decoded_required(
                        attributes,
                        accessors,
                        views,
                        Attribute::Sh0,
                        AccessorType::Vec3,
                    ) {
                        Err(error) => Err(error),
                        Ok(sh0) => match decoded_colors(attributes, accessors, views) {
                            Err(error) => Err(error),
                            Ok(colors) => match decoded_coefficients(
                                attributes,
                                accessors,
                                views,
                                (sh_count(degree_of(attributes) as int) / 3) as nat,
                            ) {
                                Err(error) => Err(error),
                                Ok(coefficients) => Ok(
                                    SplatFields {
                                        positions,
                                        rotations,
                                        scales,
                                        opacities,
                                        sh0,
                                        colors,
                                        coefficients,
                                    },
                                ),
                            },
                        },
                    },
                },
            },
        },
    }
}

/// The points of a splat cloud, or what is wrong with their number.
pub open spec fn point_total(fields: SplatFields) -> Result<int, DecodeError> {
    let n = fields.positions.len() as int / 3;
    if n == 0 {
        Err(DecodeError::NoPoints)
    } else if fields.rotations.len() as int / 4 != n || fields.scales.len() as int / 3 != n
        || fields.opacities.len() != n || fields.sh0.len() as int / 3 != n
        || fields.colors.len() as int / 4 != n || !all_have_points(fields.coefficients, n) {
        Err(DecodeError::LengthMismatch)
    } else {
        Ok(n)
    }
}

/// Whether each of the coefficients is there for `n` points.
pub open spec fn all_have_points(coefficients: Seq<Seq<F32>>, n: int) -> bool {
    forall|k: int|
        0 <= k < coefficients.len() ==> (#[trigger] coefficients[k]).len() as int / 3 == n
}

/// The attributes of the primitive that the metadata points to.
pub open spec fn primitive_attributes(json: Seq<Entry>, m: MetadataView) -> Result<
    Seq<Entry>,
    DecodeError,
> {
    match m.node_index {
        None => Err(DecodeError::NodeIndexMissing),
        Some(node) => match m.mesh_index {
            None => Err(DecodeError::MeshIndexMissing(node)),
            Some(mesh) => match m.primitive_index {
                None => Err(DecodeError::PrimitiveIndexMissing(node)),
                Some(primitive) => match primitive_entries(json, node, mesh, primitive) {
                    Err(error) => Err(error),
                    Ok(entries) => match dict_under(entries, "attributes"@) {
                        None => Err(DecodeError::AttributesMissing),
                        Some(attributes) => Ok(attributes),
                    },
                },
            },
        },
    }
}

/// The decoded attributes and the points of the splat cloud that the metadata points to.
pub open spec fn decoded_cloud(
    json: Seq<Entry>,
    accessors: Seq<Accessor>,
    views: Seq<BufferView>,
    m: MetadataView,
) -> Result<(SplatFields, int, i32), DecodeError> {
    match primitive_attributes(json, m) {
        Err(error) => Err(error),
        Ok(attributes) => match decoded_fields(attributes, accessors, views) {
            Err(error) => Err(error),
            Ok(fields) => match point_total(fields) {
                Err(error) => Err(error),
                Ok(n) => Ok((fields, n, degree_of(attributes))),
            },
        },
    }
}

/// The runs of numbers that vectors hold.
pub open spec fn runs_of(list: Seq<Vec<F32>>) -> Seq<Seq<F32>> {
    Seq::new(list.len(), |k: int| list[k]@)
}

/// What went wrong with the first coefficients goes wrong with all.
proof fn lemma_early_error(
    attributes: Seq<Entry>,
    accessors: Seq<Accessor>,
    views: Seq<BufferView>,
    m: nat,
    n: nat,
)
    requires
        m <= n,
        decoded_coefficients(attributes, accessors, views, m) is Err,
    ensures
        decoded_coefficients(attributes, accessors, views, n) == decoded_coefficients(
            attributes,
            accessors,
            views,
            m,
        ),
    decreases n,
{
    if m < n {
        lemma_early_error(attributes, accessors, views, m, (n - 1) as nat);
    }
}

/// Decodes the first `n` coefficients.
fn decode_coefficients(
    accessors: &Vec<Accessor>,
    buffer_views: &Vec<BufferView>,
    attributes: &Dictionary,
    n: u8,
) -> (result: Result<Vec<Vec<F32>>, DecodeError>)
    ensures
        match decoded_coefficients(attributes@, accessors@, buffer_views@, n as nat) {
            Ok(coefficients) => result matches Ok(list) && runs_of(list@) == coefficients,
            Err(error) => result == Err::<Vec<Vec<F32>>, DecodeError>(error),
        },
{
    let mut list: Vec<Vec<F32>> = Vec::new();
    let mut k: u8 = 0;
    assert(runs_of(list@) =~= Seq::<Seq<F32>>::empty());
    while k < n
        invariant
            k <= n,
            decoded_coefficients(attributes@, accessors@, buffer_views@, k as nat) == Ok::<
                Seq<Seq<F32>>,
                DecodeError,
            >(runs_of(list@)),
        decreases n - k,
    {
        let ghost before = list@;
        match decode_required_vec_accessor(
            accessors,
            buffer_views,
            attributes,
            Attribute::Coefficient(k),
            AccessorType::Vec3,
        ) {
            Ok(values) => {
                list.push(values);
                assert(runs_of(list@) =~= runs_of(before).push(values@));
            },
            Err(error) => {
                proof {
                    lemma_early_error(
                        attributes@,
                        accessors@,
                        buffer_views@,
                        (k + 1) as nat,
                        n as nat,
                    );
                }
                return Err(error);
            },
        }
        k = k + 1;
    }
    Ok(list)
}

/// Whether an accessor is named for each of the first `n` coefficients.
fn has_coefficients(attributes: &Dictionary, n: u8) -> (result: bool)
    ensures
        result == names_coefficients(attributes@, n as int),
{
    let mut k: u8 = 0;
    while k < n
        invariant
            k <= n,
            names_coefficients(attributes@, k as int),
        decreases n - k,
    {
        if dict_i32(attributes, Attribute::Coefficient(k).name()).is_none() {
            assert(int_under(attributes@, coefficient_name(k as int)) is None);
            return false;
        }
        k = k + 1;
    }
    true
}

/// The highest degree up to which all coefficients are there.
pub fn available_degree(attributes: &Dictionary) -> (degree: i32)
    ensures
        degree == degree_of(attributes@),
{
    if has_coefficients(attributes, 15) {
        3
    } else if has_coefficients(attributes, 8) {
        2
    } else if has_coefficients(attributes, 3) {
        1
    } else {
        0
    }
}

/// Whether each of the coefficients is there for `n` points.
fn coefficients_have_points(coefficients: &Vec<Vec<F32>>, n: usize) -> (result: bool)
    ensures
        result == all_have_points(runs_of(coefficients@), n as int),
{
    let ghost runs = runs_of(coefficients@);
    let mut k: usize = 0;
    while k < coefficients.len()
        invariant
            k <= coefficients@.len(),
            runs == runs_of(coefficients@),
            forall|j: int| 0 <= j < k ==> (#[trigger] runs[j]).len() as int / 3 == n,
        decreases coefficients@.len() - k,
    {
        if coefficients[k].len() / 3 != n {
            assert(runs[k as int].len() as int / 3 != n);
            return false;
        }
        k = k + 1;
    }
    true
}

/// Appends the core fields of one point.
fn push_core(
    payload: &mut Vec<F32>,
    positions: &Vec<F32>,
    rotations: &Vec<F32>,
    scales: &Vec<F32>,
    opacities: &Vec<F32>,
    sh0: &Vec<F32>,
    colors: &Vec<F32>,
    p: usize,
    Ghost(fields): Ghost<SplatFields>,
)
    requires
        fields.positions == positions@,
        fields.rotations == rotations@,
        fields.scales == scales@,
        fields.opacities == opacities@,
        fields.sh0 == sh0@,
        fields.colors == colors@,
        3 * p + 3 <= positions@.len(),
        4 * p + 4 <= rotations@.len(),
        3 * p + 3 <= scales@.len(),
        p < opacities@.len(),
        3 * p + 3 <= sh0@.len(),
        4 * p + 4 <= colors@.len(),
    ensures
        final(payload)@ == old(payload)@ + Seq::new(
            18,
            |f: int| splat_field(fields, p as int, f),
        ),
{
    assert(rotations.len() <= usize::MAX);
    payload.push(positions[3 * p]);
    payload.push(positions[3 * p + 1]);
    payload.push(positions[3 * p + 2]);
    payload.push(rotations[4 * p]);
    payload.push(rotations[4 * p + 1]);
    payload.push(rotations[4 * p + 2]);
    payload.push(rotations[4 * p + 3]);
    payload.push(scales[3 * p]);
    payload.push(scales[3 * p + 1]);
    payload.push(scales[3 * p + 2]);
    payload.push(opacities[p]);
    payload.push(sh0[3 * p]);
    payload.push(sh0[3 * p + 1]);
    payload.push(sh0[3 * p + 2]);
    payload.push(colors[4 * p]);
    payload.push(colors[4 * p + 1]);
    payload.push(colors[4 * p + 2]);
    payload.push(colors[4 * p + 3]);
    assert(payload@ =~= old(payload)@ + Seq::new(
        18,
        |f: int| splat_field(fields, p as int, f),
    ));
}

/// Appends the coefficients of one point.
fn push_coefficients(
    payload: &mut Vec<F32>,
    coefficients: &Vec<Vec<F32>>,
    p: usize,
    Ghost(fields): Ghost<SplatFields>,
)
    requires
        fields.coefficients == runs_of(coefficients@),
        forall|k: int|
            0 <= k < coefficients@.len() ==> 3 * p + 3 <= (#[trigger] coefficients@[k])@.len(),
    ensures
        final(payload)@ == old(payload)@ + Seq::new(
            (3 * coefficients@.len()) as nat,
            |f: int| splat_field(fields, p as int, f + 18),
        ),
{
    let ghost before = payload@;
    let mut k: usize = 0;
    assert(payload@ =~= before + Seq::new(0, |f: int| splat_field(fields, p as int, f + 18)));
    while k < coefficients.len()
        invariant
            k <= coefficients@.len(),
            fields.coefficients == runs_of(coefficients@),
            forall|j: int|
                0 <= j < coefficients@.len() ==> 3 * p + 3 <= (#[trigger] coefficients@[j])@.len(),
            payload@ == before + Seq::new(
                (3 * k) as nat,
                |f: int| splat_field(fields, p as int, f + 18),
            ),
        decreases coefficients@.len() - k,
    {
        let run: &Vec<F32> = &coefficients[k];
        assert(3 * p + 3 <= run.len());
        payload.push(run[3 * p]);
        payload.push(run[3 * p + 1]);
        payload.push(run[3 * p + 2]);
        proof {
            assert(fields.coefficients[k as int] == run@);
            assert(splat_field(fields, p as int, 3 * k + 18) == run@[3 * p as int]);
            assert(splat_field(fields, p as int, 3 * k + 1 + 18) == run@[3 * p + 1]);
            assert(splat_field(fields, p as int, 3 * k + 2 + 18) == run@[3 * p + 2]);
        }
        k = k + 1;
        assert(payload@ =~= before + Seq::new(
            (3 * k) as nat,
            |f: int| splat_field(fields, p as int, f + 18),
        ));
    }
}

/// Puts all fields of each point together.
fn interleave(
    positions: &Vec<F32>,
    rotations: &Vec<F32>,
    scales: &Vec<F32>,
    opacities: &Vec<F32>,
    sh0: &Vec<F32>,
    colors: &Vec<F32>,
    coefficients: &Vec<Vec<F32>>,
    n: usize,
    Ghost(fields): Ghost<SplatFields>,
) -> (payload: Vec<F32>)
    requires
        fields == (SplatFields {
            positions: positions@,
            rotations: rotations@,
            scales: scales@,
            opacities: opacities@,
            sh0: sh0@,
            colors: colors@,
            coefficients: runs_of(coefficients@),
        }),
        3 * n <= positions@.len(),
        4 * n <= rotations@.len(),
        3 * n <= scales@.len(),
        n <= opacities@.len(),
        3 * n <= sh0@.len(),
        4 * n <= colors@.len(),
        forall|k: int|
            0 <= k < coefficients@.len() ==> 3 * n <= (#[trigger] coefficients@[k])@.len(),
    ensures
        payload@ == interleaved(fields, n as int),
{
    let mut payload: Vec<F32> = Vec::new();
    let ghost want = interleaved(fields, n as int);
    let ghost width = splat_width(fields);
    let mut p: usize = 0;
    assert(width * 0 == 0) by (nonlinear_arith);
    while p < n
        invariant
            p <= n,
            fields == (SplatFields {
                positions: positions@,
                rotations: rotations@,
                scales: scales@,
                opacities: opacities@,
                sh0: sh0@,
                colors: colors@,
                coefficients: runs_of(coefficients@),
            }),
            3 * n <= positions@.len(),
            4 * n <= rotations@.len(),
            3 * n <= scales@.len(),
            n <= opacities@.len(),
            3 * n <= sh0@.len(),
            4 * n <= colors@.len(),
            forall|k: int|
                0 <= k < coefficients@.len() ==> 3 * n <= (#[trigger] coefficients@[k])@.len(),
            width == splat_width(fields),
            want == interleaved(fields, n as int),
            payload@.len() == width * p,
            forall|i: int| 0 <= i < payload@.len() ==> #[trigger] payload@[i] == want[i],
        decreases n - p,
    {
        let ghost before = payload@;
        push_core(
            &mut payload,
            positions,
            rotations,
            scales,
            opacities,
            sh0,
            colors,
            p,
            Ghost(fields),
        );
        push_coefficients(&mut payload, coefficients, p, Ghost(fields));
        proof {
            assert(width * (p + 1) == width * p + width) by (nonlinear_arith);
            assert(width * (p + 1) <= width * n) by (nonlinear_arith)
                requires
                    p + 1 <= n,
                    width >= 18,
            ;
            assert forall|i: int| 0 <= i < payload@.len() implies #[trigger] payload@[i]
                == want[i] by {
                if i < before.len() {
                    assert(payload@[i] == before[i]);
                } else {
                    let f = i - width * p;
                    assert(p * width == width * p) by (nonlinear_arith);
                    vstd::arithmetic::div_mod::lemma_fundamental_div_mod_converse(
                        i,
                        width,
                        p as int,
                        f,
                    );
                    assert(want[i] == splat_field(fields, p as int, f));
                    assert(payload@[i] == splat_field(fields, p as int, f));
                }
            }
        }
        p = p + 1;
    }
    assert(payload@ =~= want);
    payload
}

/// The lowest coordinates of `n` positions.
pub open spec fn lowest_center(positions: Seq<F32>, n: int) -> [F32; 3] {
    [
        lowest(column(positions, 3, 0, 0, n)),
        lowest(column(positions, 3, 1, 0, n)),
        lowest(column(positions, 3, 2, 0, n)),
    ]
}

/// The highest coordinates of `n` positions.
pub open spec fn highest_center(positions: Seq<F32>, n: int) -> [F32; 3] {
    [
        highest(column(positions, 3, 0, 0, n)),
        highest(column(positions, 3, 1, 0, n)),
        highest(column(positions, 3, 2, 0, n)),
    ]
}

/// Whether decoded data are those of a cloud, not yet cut into chunks.
pub open spec fn holds_cloud(data: DecodedSplatData, cloud: (SplatFields, int, i32)) -> bool {
    let (fields, n, degree) = cloud;
    &&& data.point_count == n as usize as i32
    &&& data.payload_layout@ == PAYLOAD_LAYOUT_FLOAT32_V1@
    &&& data.payload@ == float_bytes(interleaved(fields, n))
    &&& data.center_min == lowest_center(fields.positions, n)
    &&& data.center_max == highest_center(fields.positions, n)
    &&& data.chunk_table is None
    &&& data.sh_degree_available == degree
}

/// Decodes the splat cloud that the metadata points to.
pub fn decode_splat_payload(
    json: &Dictionary,
    accessors: &Vec<Accessor>,
    buffer_views: &Vec<BufferView>,
    metadata: &ImportedSplatMetadata,
) -> (result: Result<DecodedSplatData, DecodeError>)
    ensures
        match decoded_cloud(json@, accessors@, buffer_views@, metadata@) {
            Err(error) => result == Err::<DecodedSplatData, DecodeError>(error),
            Ok(cloud) => result matches Ok(data) && holds_cloud(data, cloud),
        },
{
    let node_index: i32 = match metadata.node_index {
        Some(index) => index,
        None => return Err(DecodeError::NodeIndexMissing),
    };
    let mesh_index: i32 = match metadata.mesh_index {
        Some(index) => index,
        None => return Err(DecodeError::MeshIndexMissing(node_index)),
    };
    let primitive_index: i32 = match metadata.primitive_index {
        Some(index) => index,
        None => return Err(DecodeError::PrimitiveIndexMissing(node_index)),
    };
    let primitive: &Dictionary = match primitive_dict_for_indices(
        json,
        node_index,
        mesh_index,
        primitive_index,
    ) {
        Ok(primitive) => primitive,
        Err(error) => return Err(error),
    };
    let attributes: &Dictionary = match dict_dictionary(primitive, "attributes") {
        Some(attributes) => attributes,
        None => return Err(DecodeError::AttributesMissing),
    };
    let positions: Vec<F32> = match decode_required_vec_accessor(
        accessors,
        buffer_views,
        attributes,
        Attribute::Position,
        AccessorType::Vec3,
    ) {
        Ok(values) => values,
        Err(error) => return Err(error),
    };
    let rotations: Vec<F32> = match decode_required_vec_accessor(
        accessors,
        buffer_views,
        attributes,
        Attribute::Rotation,
        AccessorType::Vec4,
    ) {
        Ok(values) => values,
        Err(error) => return Err(error),
    };
    let scales: Vec<F32> = match decode_required_vec_accessor(
        accessors,
        buffer_views,
        attributes,
        Attribute::Scale,
        AccessorType::Vec3,
    ) {
        Ok(values) => values,
        Err(error) => return Err(error),
    };
    let opacities: Vec<F32> = match decode_required_vec_accessor(
        accessors,
        buffer_views,
        attributes,
        Attribute::Opacity,
        AccessorType::Scalar,
    ) {
        Ok(values) => values,
        Err(error) => return Err(error),
    };
    let sh0: Vec<F32> = match decode_required_vec_accessor(
        accessors,
        buffer_views,
        attributes,
        Attribute::Sh0,
        AccessorType::Vec3,
    ) {
        Ok(values) => values,
        Err(error) => return Err(error),
    };
    let colors: Vec<F32> = match decode_optional_color_accessor(
        accessors,
        buffer_views,
        attributes,
    ) {
        Ok(values) => values,
        Err(error) => return Err(error),
    };
    let degree: i32 = available_degree(attributes);
    let coefficient_count: u8 = if degree == 0 {
        0
    } else if degree == 1 {
        3
    } else if degree == 2 {
        8
    } else {
        15
    };
    let coefficients: Vec<Vec<F32>> = match decode_coefficients(
        accessors,
        buffer_views,
        attributes,
        coefficient_count,
    ) {
        Ok(list) => list,
        Err(error) => return Err(error),
    };
    let n: usize = positions.len() / 3;
    if n == 0 {
        return Err(DecodeError::NoPoints);
    }
    if rotations.len() / 4 != n || scales.len() / 3 != n || opacities.len() != n || sh0.len() / 3
        != n || colors.len() / 4 != n || !coefficients_have_points(&coefficients, n) {
        return Err(DecodeError::LengthMismatch);
    }
    let ghost fields = SplatFields {
        positions: positions@,
        rotations: rotations@,
        scales: scales@,
        opacities: opacities@,
        sh0: sh0@,
        colors: colors@,
        coefficients: runs_of(coefficients@),
    };
    proof {
        assert forall|k: int| 0 <= k < coefficients@.len() implies 3 * n <= (
        #[trigger] coefficients@[k])@.len() by {
            assert(fields.coefficients[k].len() as int / 3 == n);
        }
    }
    let values: Vec<F32> = interleave(
        &positions,
        &rotations,
        &scales,
        &opacities,
        &sh0,
        &colors,
        &coefficients,
        n,
        Ghost(fields),
    );
    let (x0, x1): (F32, F32) = column_extent(positions.as_slice(), 3, 0, 0, n);
    let (y0, y1): (F32, F32) = column_extent(positions.as_slice(), 3, 1, 0, n);
    let (z0, z1): (F32, F32) = column_extent(positions.as_slice(), 3, 2, 0, n);
    let center_min: [F32; 3] = [x0, y0, z0];
    let center_max: [F32; 3] = [x1, y1, z1];
    assert(center_min =~= lowest_center(positions@, n as int));
    assert(center_max =~= highest_center(positions@, n as int));
    Ok(
        DecodedSplatData {
            point_count: n as i32,
            payload_layout: PAYLOAD_LAYOUT_FLOAT32_V1.to_owned(),
            payload: floats_to_bytes(&values),
            center_min,
            center_max,
            chunk_table: None,
            sh_degree_available: degree,
        },
    )
}

/// Why a scene gives no splat cloud.
#[derive(Clone, Copy, Debug, PartialEq, Eq, Structural)]
pub enum SceneError {
    MissingMesh(MissingMesh),
    NoSplats,
    Undecodable(DecodeError),
}

impl SceneError {
    /// What to tell a person about the error.
    pub fn message(&self) -> (text: String)
        ensures
            text@ == match *self {
                SceneError::MissingMesh(missing) => missing_mesh_text(missing),
                SceneError::NoSplats => "The scene has no gaussian splat primitive."@,
                SceneError::Undecodable(error) => decode_error_text(error),
            },
    {
        match self {
            SceneError::MissingMesh(missing) => missing.message(),
            SceneError::NoSplats => "The scene has no gaussian splat primitive.".to_owned(),
            SceneError::Undecodable(error) => error.message(),
        }
    }
}

/// Decodes the first splat cloud of a scene.
pub fn decode_first_splat(
    json: &Dictionary,
    accessors: &Vec<Accessor>,
    buffer_views: &Vec<BufferView>,
) -> (result: Result<(ImportedSplatMetadata, DecodedSplatData), SceneError>)
    ensures
        ({
            let nodes = list_or_empty(json@, "nodes"@);
            let meshes = list_or_empty(json@, "meshes"@);
            match scene_splats(nodes, meshes, accessors@, nodes.len()) {
                Err(missing) => result matches Err(error) && error == SceneError::MissingMesh(
                    missing,
                ),
                Ok(list) => if list.len() == 0 {
                    result matches Err(error) && error == SceneError::NoSplats
                } else {
                    match decoded_cloud(json@, accessors@, buffer_views@, list[0]) {
                        Err(found) => result matches Err(error) && error
                            == SceneError::Undecodable(found),
                        Ok(cloud) => result matches Ok(first) && first.0@ == list[0]
                            && holds_cloud(first.1, cloud),
                    }
                },
            }
        }),
{
    let mut list: Vec<ImportedSplatMetadata> = match inspect_gsplat_nodes(json, accessors) {
        Ok(list) => list,
        Err(missing) => return Err(SceneError::MissingMesh(missing)),
    };
    let ghost all = metadata_views(list@);
    if list.len() == 0 {
        return Err(SceneError::NoSplats);
    }
    assert(all[0] == list@[0]@);
    let metadata: ImportedSplatMetadata = list.remove(0);
    match decode_splat_payload(json, accessors, buffer_views, &metadata) {
        Ok(data) => Ok((metadata, data)),
        Err(error) => Err(SceneError::Undecodable(error)),
    }
}

impl DecodedSplatData {
    /// The numbers of one splat.
    pub fn stride(&self) -> (stride: usize)
        ensures
            stride == decoded_stride(self.sh_degree_available),
    {
        POINT_STRIDE_FLOATS + sh_floats(self.sh_degree_available)
    }

    /// The numbers of all splats, one splat after the other.
    pub fn values(&self) -> (values: Vec<F32>)
        ensures
            values@ == bytes_floats(self.payload@),
    {
        bytes_to_floats(self.payload.as_slice())
    }

    /// Cuts the cloud into grid chunks, and says how large the splats of each chunk are. `cells`
    /// gives the cell of every splat, `importance` how much it contributes.
    pub fn into_chunks(self, cells: &Vec<[i32; 3]>, importance: &Vec<F32>) -> (result: (
        DecodedSplatData,
        Vec<F32>,
    ))
        requires
            cells@.len() == bytes_floats(self.payload@).len() as int / decoded_stride(
                self.sh_degree_available,
            ),
            importance@.len() == cells@.len(),
            cells@.len() <= u32::MAX,
        ensures
            result.0 == (DecodedSplatData {
                payload: result.0.payload,
                chunk_table: result.0.chunk_table,
                ..self
            }),
            result.0.chunk_table matches Some(table) && is_partition(
                bytes_floats(self.payload@),
                F32 { bits: DEFAULT_CHUNK_SIZE_BITS },
                decoded_stride(self.sh_degree_available) as usize,
                cells@,
                importance@,
                bytes_floats(result.0.payload@),
                table,
                result.1@,
            ),
    {
        let stride: usize = self.stride();
        let values: Vec<F32> = self.values();
        let parts: PartitionedPayload = partition_payload(
            values.as_slice(),
            F32 { bits: DEFAULT_CHUNK_SIZE_BITS },
            stride,
            cells,
            importance,
        );
        proof {
            floats_round_trip(parts.payload@);
        }
        let payload: Vec<u8> = floats_to_bytes(&parts.payload);
        (
            DecodedSplatData { payload, chunk_table: Some(parts.table), ..self },
            parts.max_radii,
        )
    }
}

/// The numbers of one splat with coefficients up to the given degree.
pub open spec fn decoded_stride(degree: i32) -> int {
    POINT_STRIDE_FLOATS + sh_count(degree as int)
}

/// As many coefficients are decoded as were asked for.
proof fn lemma_coefficient_total(
    attributes: Seq<Entry>,
    accessors: Seq<Accessor>,
    views: Seq<BufferView>,
    n: nat,
)
    ensures
        decoded_coefficients(attributes, accessors, views, n) matches Ok(list) ==> list.len() == n,
    decreases n,
{
    if n > 0 {
        lemma_coefficient_total(attributes, accessors, views, (n - 1) as nat);
    }
}

/// A decoded payload holds whole splats: as many as there are points, each with the core fields and
/// the coefficients up to the degree that is available.
pub proof fn payload_holds_whole_splats(
    json: Seq<Entry>,
    accessors: Seq<Accessor>,
    views: Seq<BufferView>,
    m: MetadataView,
)
    ensures
        decoded_cloud(json, accessors, views, m) matches Ok(cloud) ==> {
            &&& 0 <= cloud.2 <= 3
            &&& splat_width(cloud.0) == decoded_stride(cloud.2)
            &&& bytes_floats(float_bytes(interleaved(cloud.0, cloud.1))).len() == cloud.1
                * decoded_stride(cloud.2)
        },
{
    if let Ok(cloud) = decoded_cloud(json, accessors, views, m) {
        let attributes = primitive_attributes(json, m)->Ok_0;
        lemma_coefficient_total(
            attributes,
            accessors,
            views,
            (sh_count(degree_of(attributes) as int) / 3) as nat,
        );
        floats_round_trip(interleaved(cloud.0, cloud.1));
        let width = splat_width(cloud.0);
        assert(width * cloud.1 == cloud.1 * width && width * cloud.1 >= 0) by (nonlinear_arith)
            requires
                width >= 18,
                cloud.1 >= 0,
        ;
    }
}

} // verus!
