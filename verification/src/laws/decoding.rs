//! Decoding: the numbers of a payload are the numbers that the accessors of the scene hold.

use crate::bytes::{lemma_word_at_words, word_at};
use crate::engine::{accessor_type_of, AccessorType};
use crate::floats::F32;
use crate::import_state::decode::{
    component_count, decoded_accessor, decoded_cloud, decoded_coefficients, decoded_colors,
    decoded_required, degree_of, holds_cloud, interleaved, names_coefficients,
    payload_holds_whole_splats, primitive_attributes, splat_field, splat_width, white, with_alpha,
    BufferView, DecodeError, DecodedSplatData, SplatFields,
};
use crate::import_state::inspect::{coefficient_name, Accessor, Attribute};
use crate::import_state::MetadataView;
use crate::laws::numbers::columns_are_enclosed;
use crate::laws::render::{coefficients_up_to, degrees_count_their_coefficients};
use crate::variant::{int_under, lookup, Entry, Value};
use crate::words::float_words;
use vstd::arithmetic::div_mod::lemma_fundamental_div_mod_converse;
use vstd::prelude::*;
use vstd::string::*;

verus! {

/// An element has as many numbers as its vector or its square matrix.
pub proof fn elements_have_their_numbers(kind: AccessorType)
    ensures
        kind == AccessorType::Scalar ==> component_count(kind) == 1,
        kind == AccessorType::Vec2 ==> component_count(kind) == 2,
        kind == AccessorType::Vec3 ==> component_count(kind) == 3,
        kind == AccessorType::Vec4 ==> component_count(kind) == 4,
        kind == AccessorType::Mat2 ==> component_count(kind) == 2 * 2,
        kind == AccessorType::Mat3 ==> component_count(kind) == 3 * 3,
        kind == AccessorType::Mat4 ==> component_count(kind) == 4 * 4,
{
}

/// The bytes from one element of an accessor to the next.
pub open spec fn step_of(view: BufferView, components: int) -> int {
    if view.byte_stride > 0 {
        view.byte_stride as int
    } else {
        4 * components
    }
}

/// The bits of number `c` of element `p` that an accessor holds.
pub open spec fn held_bits(
    accessors: Seq<Accessor>,
    views: Seq<BufferView>,
    index: i32,
    components: int,
    p: int,
    c: int,
) -> u32 {
    let accessor = accessors[index as int];
    let view = views[accessor.buffer_view as int];
    word_at(view.data@, accessor.byte_offset + p * step_of(view, components) + 4 * c)
}

/// Whether a decoder can read an accessor: it is there, holds plain single-precision numbers of an
/// expected shape, and every element lies within its buffer view. Where it has no elements, one
/// would still have to fit.
pub open spec fn is_readable(
    accessors: Seq<Accessor>,
    views: Seq<BufferView>,
    index: i32,
    expected: Seq<AccessorType>,
) -> bool {
    &&& 0 <= index < accessors.len()
    &&& ({
        let accessor = accessors[index as int];
        &&& accessor.sparse_count == 0
        &&& accessor.component_type == 5126
        &&& !accessor.normalized
        &&& accessor_type_of(accessor.accessor_type) matches Some(kind) && expected.contains(kind)
            && 0 <= accessor.buffer_view < views.len() && ({
            let view = views[accessor.buffer_view as int];
            let element = 4 * component_count(kind);
            let step = step_of(view, component_count(kind));
            let last = if accessor.count >= 1 {
                accessor.count - 1
            } else {
                0
            };
            &&& element <= step <= usize::MAX
            &&& 0 <= accessor.byte_offset
            &&& accessor.byte_offset + last * step + element <= view.data@.len()
        })
    })
}

/// An accessor is decoded where it can be read, and nowhere else; what comes of it are the numbers
/// that it holds, element by element.
pub proof fn readable_accessors_are_decoded(
    accessors: Seq<Accessor>,
    views: Seq<BufferView>,
    index: i32,
    attribute: Attribute,
    expected: Seq<AccessorType>,
    p: int,
    c: int,
)
    requires
        forall|v: int| 0 <= v < views.len() ==> (#[trigger] views[v]).data@.len() <= usize::MAX,
    ensures
        ({
            let result = decoded_accessor(accessors, views, index, attribute, expected);
            &&& result is Ok <==> is_readable(accessors, views, index, expected)
            &&& result matches Ok(values) ==> ({
                let accessor = accessors[index as int];
                let components = component_count(accessor_type_of(accessor.accessor_type)->0);
                let count = if accessor.count > 0 {
                    accessor.count as int
                } else {
                    0
                };
                &&& values.len() == count * components
                &&& 0 <= p < count && 0 <= c < components ==> values[p * components + c].bits
                    == held_bits(accessors, views, index, components, p, c)
            })
        }),
{
    let result = decoded_accessor(accessors, views, index, attribute, expected);
    if 0 <= index < accessors.len() {
        let accessor = accessors[index as int];
        if 0 <= accessor.buffer_view < views.len() {
            let view = views[accessor.buffer_view as int];
            assert(view.data@.len() <= usize::MAX);
        }
    }
    if let Ok(values) = result {
        let accessor = accessors[index as int];
        let components = component_count(accessor_type_of(accessor.accessor_type)->0);
        let count = if accessor.count > 0 {
            accessor.count as int
        } else {
            0
        };
        assert(count * components >= 0) by (nonlinear_arith)
            requires
                count >= 0,
                components >= 0,
        ;
        if 0 <= p < count && 0 <= c < components {
            lemma_fundamental_div_mod_converse(p * components + c, components, p, c);
            assert(0 <= p * components + c < count * components) by (nonlinear_arith)
                requires
                    0 <= p < count,
                    0 <= c < components,
            ;
        }
    }
}

/// Why an accessor is refused is what is wrong with it.
pub proof fn refusals_name_the_fault(
    accessors: Seq<Accessor>,
    views: Seq<BufferView>,
    index: i32,
    attribute: Attribute,
    expected: Seq<AccessorType>,
)
    ensures
        match decoded_accessor(accessors, views, index, attribute, expected) {
            Ok(_) => true,
            Err(DecodeError::AccessorMissing { attribute: a, accessor }) => a == attribute
                && accessor == index && !(0 <= index < accessors.len()),
            Err(DecodeError::SparseAccessor(a)) => a == attribute
                && accessors[index as int].sparse_count != 0,
            Err(DecodeError::UnexpectedType { attribute: a, accessor_type }) => a == attribute
                && accessor_type == accessors[index as int].accessor_type && (accessor_type_of(
                accessor_type,
            ) is None || !expected.contains(accessor_type_of(accessor_type)->0)),
            Err(DecodeError::UnsupportedComponent { attribute: a, component_type }) => a
                == attribute && component_type == accessors[index as int].component_type
                && component_type != 5126,
            Err(DecodeError::Normalized(a)) => a == attribute
                && accessors[index as int].normalized,
            Err(DecodeError::NoBufferView { attribute: a, accessor }) => a == attribute && accessor
                == index && accessors[index as int].buffer_view < 0,
            Err(DecodeError::BufferViewMissing { attribute: a, view }) => a == attribute && view
                == accessors[index as int].buffer_view && view >= views.len(),
            Err(DecodeError::InvalidByteStride { attribute: a, byte_stride }) => a == attribute
                && byte_stride == views[accessors[index as int].buffer_view as int].byte_stride
                && byte_stride > usize::MAX,
            Err(DecodeError::StrideTooSmall { attribute: a, stride, element }) => a == attribute
                && stride == views[accessors[index as int].buffer_view as int].byte_stride
                && stride < element,
            Err(DecodeError::InvalidByteOffset { attribute: a, offset }) => a == attribute && offset
                == accessors[index as int].byte_offset && (offset < 0 || offset > usize::MAX),
            Err(DecodeError::RangeOverflow(a)) => a == attribute,
            Err(DecodeError::PastEnd(a)) => a == attribute,
            Err(_) => false,
        },
{
}

/// Every attribute of a splat is read under its own name: the coefficients by degree and place.
pub proof fn coefficients_are_named_by_degree(degree: int, m: int)
    requires
        1 <= degree <= 3,
        0 <= m <= 2 * degree,
    ensures
        coefficient_name(degree * degree - 1 + m) == "KHR_gaussian_splatting:SH_DEGREE_"@ + seq![
            (48 + degree) as char,
        ] + "_COEF_"@ + seq![(48 + m) as char],
{
    reveal_strlit("KHR_gaussian_splatting:SH_DEGREE_");
    reveal_strlit("_COEF_");
    reveal_strlit("KHR_gaussian_splatting:SH_DEGREE_1_COEF_0");
    reveal_strlit("KHR_gaussian_splatting:SH_DEGREE_1_COEF_1");
    reveal_strlit("KHR_gaussian_splatting:SH_DEGREE_1_COEF_2");
    reveal_strlit("KHR_gaussian_splatting:SH_DEGREE_2_COEF_0");
    reveal_strlit("KHR_gaussian_splatting:SH_DEGREE_2_COEF_1");
    reveal_strlit("KHR_gaussian_splatting:SH_DEGREE_2_COEF_2");
    reveal_strlit("KHR_gaussian_splatting:SH_DEGREE_2_COEF_3");
    reveal_strlit("KHR_gaussian_splatting:SH_DEGREE_2_COEF_4");
    reveal_strlit("KHR_gaussian_splatting:SH_DEGREE_3_COEF_0");
    reveal_strlit("KHR_gaussian_splatting:SH_DEGREE_3_COEF_1");
    reveal_strlit("KHR_gaussian_splatting:SH_DEGREE_3_COEF_2");
    reveal_strlit("KHR_gaussian_splatting:SH_DEGREE_3_COEF_3");
    reveal_strlit("KHR_gaussian_splatting:SH_DEGREE_3_COEF_4");
    reveal_strlit("KHR_gaussian_splatting:SH_DEGREE_3_COEF_5");
    reveal_strlit("KHR_gaussian_splatting:SH_DEGREE_3_COEF_6");
    assert(degree == 1 || degree == 2 || degree == 3);
    assert(1int * 1 == 1 && 2int * 2 == 4 && 3int * 3 == 9);
    assert(coefficient_name(degree * degree - 1 + m) =~= "KHR_gaussian_splatting:SH_DEGREE_"@ + seq![
        (48 + degree) as char,
    ] + "_COEF_"@ + seq![(48 + m) as char]);
}

/// Colors of three channels are widened point by point: dropping every fourth number gives them
/// back, and every fourth is one.
pub proof fn widened_colors_keep_their_channels(values: Seq<F32>, p: int, c: int)
    requires
        0 <= p < values.len() / 3,
        0 <= c < 3,
    ensures
        with_alpha(values).len() == 4 * (values.len() / 3),
        with_alpha(values)[4 * p + c] == values[3 * p + c],
        with_alpha(values)[4 * p + 3].bits == 0x3f80_0000,
{
}

/// The bits of field `f` of point `p` in a decoded payload.
pub open spec fn payload_bits(data: DecodedSplatData, p: int, f: int) -> u32 {
    word_at(data.payload@, 4 * (p * (18 + coefficients_up_to(data.sh_degree_available as int)) + f))
}

/// Whether the fields from `start` on of every point are the numbers that the accessor under `name`
/// holds.
pub open spec fn fields_are_held(
    data: DecodedSplatData,
    attributes: Seq<Entry>,
    accessors: Seq<Accessor>,
    views: Seq<BufferView>,
    name: Seq<char>,
    components: int,
    start: int,
    points: int,
) -> bool {
    int_under(attributes, name) matches Some(index) && forall|p: int, c: int|
        #![trigger held_bits(accessors, views, index, components, p, c)]
        0 <= p < points && 0 <= c < components ==> payload_bits(data, p, start + c) == held_bits(
            accessors,
            views,
            index,
            components,
            p,
            c,
        )
}

proof fn lemma_payload_field(
    data: DecodedSplatData,
    fields: SplatFields,
    n: int,
    degree: i32,
    p: int,
    f: int,
)
    requires
        holds_cloud(data, (fields, n, degree)),
        0 <= degree <= 3,
        splat_width(fields) == 18 + coefficients_up_to(degree as int),
        0 <= p < n,
        0 <= f < splat_width(fields),
    ensures
        payload_bits(data, p, f) == splat_field(fields, p, f).bits,
{
    let width = splat_width(fields);
    let values = interleaved(fields, n);
    assert(0 <= p * width + f < width * n) by (nonlinear_arith)
        requires
            0 <= p < n,
            0 <= f < width,
    ;
    lemma_fundamental_div_mod_converse(p * width + f, width, p, f);
    lemma_word_at_words(float_words(values), p * width + f);
}

proof fn lemma_required(
    attributes: Seq<Entry>,
    accessors: Seq<Accessor>,
    views: Seq<BufferView>,
    attribute: Attribute,
    kind: AccessorType,
    index: i32,
    p: int,
    c: int,
)
    requires
        decoded_required(attributes, accessors, views, attribute, kind) is Ok,
        int_under(attributes, crate::import_state::inspect::attribute_name(attribute)) == Some(
            index,
        ),
        0 <= c < component_count(kind),
        0 <= p,
        p * component_count(kind) + component_count(kind) <= decoded_required(
            attributes,
            accessors,
            views,
            attribute,
            kind,
        )->Ok_0.len(),
    ensures
        decoded_required(attributes, accessors, views, attribute, kind)->Ok_0[p * component_count(
            kind,
        ) + c].bits == held_bits(accessors, views, index, component_count(kind), p, c),
{
    let components = component_count(kind);
    assert(seq![kind].contains(accessor_type_of(accessors[index as int].accessor_type)->0));
    assert(accessor_type_of(accessors[index as int].accessor_type) == Some(kind));
    lemma_fundamental_div_mod_converse(p * components + c, components, p, c);
}

/// Every core field of every point is a number that the accessor of its attribute holds: position,
/// rotation, scale, opacity, base color.
pub proof fn core_fields_are_those_held(
    json: Seq<Entry>,
    accessors: Seq<Accessor>,
    views: Seq<BufferView>,
    m: MetadataView,
    data: DecodedSplatData,
)
    requires
        decoded_cloud(json, accessors, views, m) is Ok,
        holds_cloud(data, decoded_cloud(json, accessors, views, m)->Ok_0),
    ensures
        ({
            let attributes = primitive_attributes(json, m)->Ok_0;
            let n = decoded_cloud(json, accessors, views, m)->Ok_0.1;
            &&& n >= 1
            &&& fields_are_held(data, attributes, accessors, views, "POSITION"@, 3, 0, n)
            &&& fields_are_held(
                data,
                attributes,
                accessors,
                views,
                "KHR_gaussian_splatting:ROTATION"@,
                4,
                3,
                n,
            )
            &&& fields_are_held(
                data,
                attributes,
                accessors,
                views,
                "KHR_gaussian_splatting:SCALE"@,
                3,
                7,
                n,
            )
            &&& fields_are_held(
                data,
                attributes,
                accessors,
                views,
                "KHR_gaussian_splatting:OPACITY"@,
                1,
                10,
                n,
            )
            &&& fields_are_held(
                data,
                attributes,
                accessors,
                views,
                "KHR_gaussian_splatting:SH_DEGREE_0_COEF_0"@,
                3,
                11,
                n,
            )
        }),
{
    let cloud = decoded_cloud(json, accessors, views, m)->Ok_0;
    let (fields, n, degree) = cloud;
    let attributes = primitive_attributes(json, m)->Ok_0;
    payload_holds_whole_splats(json, accessors, views, m);
    degrees_count_their_coefficients(degree as int, 0);
    lemma_held(
        data,
        fields,
        n,
        degree,
        attributes,
        accessors,
        views,
        Attribute::Position,
        AccessorType::Vec3,
        fields.positions,
        0,
    );
    lemma_held(
        data,
        fields,
        n,
        degree,
        attributes,
        accessors,
        views,
        Attribute::Rotation,
        AccessorType::Vec4,
        fields.rotations,
        3,
    );
    lemma_held(
        data,
        fields,
        n,
        degree,
        attributes,
        accessors,
        views,
        Attribute::Scale,
        AccessorType::Vec3,
        fields.scales,
        7,
    );
    lemma_held(
        data,
        fields,
        n,
        degree,
        attributes,
        accessors,
        views,
        Attribute::Opacity,
        AccessorType::Scalar,
        fields.opacities,
        10,
    );
    lemma_held(
        data,
        fields,
        n,
        degree,
        attributes,
        accessors,
        views,
        Attribute::Sh0,
        AccessorType::Vec3,
        fields.sh0,
        11,
    );
}

proof fn lemma_held(
    data: DecodedSplatData,
    fields: SplatFields,
    n: int,
    degree: i32,
    attributes: Seq<Entry>,
    accessors: Seq<Accessor>,
    views: Seq<BufferView>,
    attribute: Attribute,
    kind: AccessorType,
    run: Seq<F32>,
    start: int,
)
    requires
        holds_cloud(data, (fields, n, degree)),
        0 <= degree <= 3,
        splat_width(fields) == 18 + coefficients_up_to(degree as int),
        decoded_required(attributes, accessors, views, attribute, kind) == Ok::<
            Seq<F32>,
            DecodeError,
        >(run),
        run.len() as int / component_count(kind) == n,
        0 <= start,
        start + component_count(kind) <= splat_width(fields),
        forall|p: int, c: int|
            #![trigger run[p * component_count(kind) + c]]
            0 <= p < n && 0 <= c < component_count(kind) ==> splat_field(fields, p, start + c)
                == run[p * component_count(kind) + c],
    ensures
        fields_are_held(
            data,
            attributes,
            accessors,
            views,
            crate::import_state::inspect::attribute_name(attribute),
            component_count(kind),
            start,
            n,
        ),
{
    let components = component_count(kind);
    let index = int_under(attributes, crate::import_state::inspect::attribute_name(attribute))->0;
    assert forall|p: int, c: int|
        #![trigger held_bits(accessors, views, index, components, p, c)]
        0 <= p < n && 0 <= c < components implies payload_bits(data, p, start + c) == held_bits(
        accessors,
        views,
        index,
        components,
        p,
        c,
    ) by {
        lemma_payload_field(data, fields, n, degree, p, start + c);
        vstd::arithmetic::div_mod::lemma_fundamental_div_mod(run.len() as int, components);
        assert(p * components + components <= run.len()) by (nonlinear_arith)
            requires
                p < n,
                run.len() as int == components * n + run.len() as int % components,
                0 <= run.len() as int % components,
                components >= 1,
        ;
        lemma_required(attributes, accessors, views, attribute, kind, index, p, c);
        assert(splat_field(fields, p, start + c) == run[p * components + c]);
    }
}

/// The color of every point is what the color accessor holds: all four channels, or three and one
/// for the fourth; without an accessor, opaque white.
pub proof fn colors_are_those_held(
    json: Seq<Entry>,
    accessors: Seq<Accessor>,
    views: Seq<BufferView>,
    m: MetadataView,
    data: DecodedSplatData,
    p: int,
    c: int,
)
    requires
        decoded_cloud(json, accessors, views, m) is Ok,
        holds_cloud(data, decoded_cloud(json, accessors, views, m)->Ok_0),
        0 <= p < decoded_cloud(json, accessors, views, m)->Ok_0.1,
        0 <= c < 4,
    ensures
        match int_under(primitive_attributes(json, m)->Ok_0, "COLOR_0"@) {
            None => payload_bits(data, p, 14 + c) == 0x3f80_0000,
            Some(index) => {
                &&& accessors[index as int].accessor_type == 2 || accessors[index as int].accessor_type
                    == 3
                &&& accessors[index as int].accessor_type == 3 ==> payload_bits(data, p, 14 + c)
                    == held_bits(accessors, views, index, 4, p, c)
                &&& accessors[index as int].accessor_type == 2 && c < 3 ==> payload_bits(
                    data,
                    p,
                    14 + c,
                ) == held_bits(accessors, views, index, 3, p, c)
                &&& accessors[index as int].accessor_type == 2 && c == 3 ==> payload_bits(
                    data,
                    p,
                    14 + c,
                ) == 0x3f80_0000
            },
        },
{
    let cloud = decoded_cloud(json, accessors, views, m)->Ok_0;
    let (fields, n, degree) = cloud;
    let attributes = primitive_attributes(json, m)->Ok_0;
    payload_holds_whole_splats(json, accessors, views, m);
    degrees_count_their_coefficients(degree as int, 0);
    lemma_payload_field(data, fields, n, degree, p, 14 + c);
    assert(fields.colors.len() as int / 4 == n);
    if let Some(index) = int_under(attributes, "COLOR_0"@) {
        let accessor = accessors[index as int];
        let expected = seq![AccessorType::Vec3, AccessorType::Vec4];
        let kind = accessor_type_of(accessor.accessor_type)->0;
        assert(expected.contains(kind));
        let k = choose|k: int| 0 <= k < expected.len() && expected[k] == kind;
        assert(kind == AccessorType::Vec3 || kind == AccessorType::Vec4);
        let components = component_count(kind);
        let values = decoded_accessor(
            accessors,
            views,
            index,
            Attribute::Color,
            expected,
        )->Ok_0;
        if c < components {
            lemma_fundamental_div_mod_converse(p * components + c, components, p, c);
        }
    }
}

proof fn lemma_coefficient(
    attributes: Seq<Entry>,
    accessors: Seq<Accessor>,
    views: Seq<BufferView>,
    n: nat,
    k: int,
)
    requires
        decoded_coefficients(attributes, accessors, views, n) is Ok,
        0 <= k < n <= 255,
    ensures
        decoded_coefficients(attributes, accessors, views, n)->Ok_0.len() == n,
        decoded_required(
            attributes,
            accessors,
            views,
            Attribute::Coefficient(k as u8),
            AccessorType::Vec3,
        ) == Ok::<Seq<F32>, DecodeError>(
            decoded_coefficients(attributes, accessors, views, n)->Ok_0[k],
        ),
    decreases n,
{
    let prev = decoded_coefficients(attributes, accessors, views, (n - 1) as nat);
    if n > 1 {
        lemma_coefficient(
            attributes,
            accessors,
            views,
            (n - 1) as nat,
            if k < n - 1 {
                k
            } else {
                0
            },
        );
    } else {
        assert(prev->Ok_0.len() == 0);
    }
}

/// Every coefficient of every point, up to the degree that is available, is what the accessor of
/// its name holds. A degree is available where all coefficients up to it are named.
pub proof fn coefficients_are_those_held(
    json: Seq<Entry>,
    accessors: Seq<Accessor>,
    views: Seq<BufferView>,
    m: MetadataView,
    data: DecodedSplatData,
    k: int,
)
    requires
        decoded_cloud(json, accessors, views, m) is Ok,
        holds_cloud(data, decoded_cloud(json, accessors, views, m)->Ok_0),
        0 <= k < (data.sh_degree_available + 1) * (data.sh_degree_available + 1) - 1,
    ensures
        ({
            let attributes = primitive_attributes(json, m)->Ok_0;
            let n = decoded_cloud(json, accessors, views, m)->Ok_0.1;
            fields_are_held(
                data,
                attributes,
                accessors,
                views,
                coefficient_name(k),
                3,
                18 + 3 * k,
                n,
            )
        }),
{
    let cloud = decoded_cloud(json, accessors, views, m)->Ok_0;
    let (fields, n, degree) = cloud;
    let attributes = primitive_attributes(json, m)->Ok_0;
    payload_holds_whole_splats(json, accessors, views, m);
    degrees_count_their_coefficients(degree as int, 0);
    let total = (degree + 1) * (degree + 1) - 1;
    lemma_coefficient(attributes, accessors, views, total as nat, k);
    let run = fields.coefficients[k];
    assert(run.len() as int / 3 == n);
    assert forall|p: int, c: int|
        #![trigger run[p * 3 + c]]
        0 <= p < n && 0 <= c < 3 implies splat_field(fields, p, 18 + 3 * k + c) == run[p * 3
        + c] by {
        assert((18 + 3 * k + c - 18) / 3 == k && (18 + 3 * k + c - 18) % 3 == c);
    }
    lemma_held(
        data,
        fields,
        n,
        degree,
        attributes,
        accessors,
        views,
        Attribute::Coefficient(k as u8),
        AccessorType::Vec3,
        run,
        18 + 3 * k,
    );
}

/// The degree that is available is the highest up to which every coefficient is named.
pub proof fn available_degree_is_the_highest_named(attributes: Seq<Entry>, degree: int)
    requires
        1 <= degree <= 3,
    ensures
        0 <= degree_of(attributes) <= 3,
        degree <= degree_of(attributes) <==> forall|k: int|
            0 <= k < (degree + 1) * (degree + 1) - 1 ==> int_under(
                attributes,
                #[trigger] coefficient_name(k),
            ) is Some,
{
    assert(degree == 1 || degree == 2 || degree == 3);
    assert(2int * 2 == 4 && 3int * 3 == 9 && 4int * 4 == 16);
    if names_coefficients(attributes, 15) {
        assert(names_coefficients(attributes, 8) && names_coefficients(attributes, 3));
    }
    if names_coefficients(attributes, 8) {
        assert(names_coefficients(attributes, 3));
    }
}

/// A decoded cloud has as many points as the position accessor has elements, and every other
/// accessor has as many; its payload holds the points and nothing else; its bounds enclose the
/// positions, and no more than they take up.
pub proof fn decoded_clouds_are_whole(
    json: Seq<Entry>,
    accessors: Seq<Accessor>,
    views: Seq<BufferView>,
    m: MetadataView,
    data: DecodedSplatData,
    p: int,
    c: int,
)
    requires
        decoded_cloud(json, accessors, views, m) is Ok,
        holds_cloud(data, decoded_cloud(json, accessors, views, m)->Ok_0),
        0 <= p < decoded_cloud(json, accessors, views, m)->Ok_0.1,
        0 <= c < 3,
    ensures
        ({
            let attributes = primitive_attributes(json, m)->Ok_0;
            let n = decoded_cloud(json, accessors, views, m)->Ok_0.1;
            let index = int_under(attributes, "POSITION"@)->0;
            let value = F32 { bits: payload_bits(data, p, c) };
            &&& n == accessors[index as int].count
            &&& n <= i32::MAX ==> data.point_count == n
            &&& data.payload@.len() == 4 * (n * (18 + coefficients_up_to(
                data.sh_degree_available as int,
            )))
            &&& data.sh_degree_available == degree_of(attributes)
            &&& data.chunk_table is None
            &&& !value.nan() ==> data.center_min[c].at_most(value) && value.at_most(
                data.center_max[c],
            )
            &&& !value.nan() ==> exists|q: int|
                #![trigger payload_bits(data, q, c)]
                0 <= q < n && payload_bits(data, q, c) == data.center_min[c].bits
            &&& !value.nan() ==> exists|q: int|
                #![trigger payload_bits(data, q, c)]
                0 <= q < n && payload_bits(data, q, c) == data.center_max[c].bits
        }),
{
    let cloud = decoded_cloud(json, accessors, views, m)->Ok_0;
    let (fields, n, degree) = cloud;
    let attributes = primitive_attributes(json, m)->Ok_0;
    payload_holds_whole_splats(json, accessors, views, m);
    degrees_count_their_coefficients(degree as int, 0);
    let width = splat_width(fields);
    assert(width * n == n * width && width * n >= 0) by (nonlinear_arith)
        requires
            width >= 18,
            n >= 0,
    ;
    assert forall|q: int| 0 <= q < n implies #[trigger] payload_bits(data, q, c)
        == fields.positions[q * 3 + c].bits by {
        lemma_payload_field(data, fields, n, degree, q, c);
    }
    assert(seq![AccessorType::Vec3].contains(
        accessor_type_of(accessors[int_under(attributes, "POSITION"@)->0 as int].accessor_type)->0,
    ));
    columns_are_enclosed(fields.positions, 3, c, 0, n);
    assert(payload_bits(data, p, c) == fields.positions[p * 3 + c].bits);
    if !fields.positions[p * 3 + c].nan() {
        let low = choose|q: int|
            0 <= q < n && #[trigger] fields.positions[q * 3 + c] == data.center_min[c];
        let high = choose|q: int|
            0 <= q < n && #[trigger] fields.positions[q * 3 + c] == data.center_max[c];
        assert(payload_bits(data, low, c) == data.center_min[c].bits);
        assert(payload_bits(data, high, c) == data.center_max[c].bits);
    }
}

/// The primitive that is decoded is the one that the metadata names: that of the node's mesh.
pub proof fn metadata_names_the_primitive(json: Seq<Entry>, m: MetadataView)
    ensures
        primitive_attributes(json, m) matches Ok(attributes) ==> {
            &&& m.node_index is Some && m.mesh_index is Some && m.primitive_index is Some
            &&& lookup(json, "nodes"@) matches Some(Value::List(nodes)) && 0 <= m.node_index->0
                < nodes.len() && (nodes[m.node_index->0 as int] matches Value::Dict(node)
                && int_under(node, "mesh"@) == m.mesh_index)
            &&& lookup(json, "meshes"@) matches Some(Value::List(meshes)) && 0 <= m.mesh_index->0
                < meshes.len() && (meshes[m.mesh_index->0 as int] matches Value::Dict(mesh)
                && lookup(mesh, "primitives"@) matches Some(Value::List(primitives)) && 0
                <= m.primitive_index->0 < primitives.len()
                && (primitives[m.primitive_index->0 as int] matches Value::Dict(primitive)
                && lookup(primitive, "attributes"@) == Some(Value::Dict(attributes))))
        },
{
}

/// Where a cloud has no colors its splats are white, one color for every position that is said to
/// be there.
pub proof fn missing_colors_are_white(
    attributes: Seq<Entry>,
    accessors: Seq<Accessor>,
    views: Seq<BufferView>,
    index: i32,
    i: int,
)
    requires
        int_under(attributes, "COLOR_0"@) is None,
        int_under(attributes, "POSITION"@) == Some(index),
    ensures
        decoded_colors(attributes, accessors, views) matches Ok(colors) && {
            &&& 0 <= index < accessors.len() && accessors[index as int].count as i32 >= 0
                ==> colors.len() == 4 * (accessors[index as int].count as i32)
            &&& index < 0 || index >= accessors.len() ==> colors.len() == 0
            &&& 0 <= i < colors.len() ==> colors[i].bits == 0x3f80_0000
        },
{
}

} // verus!
