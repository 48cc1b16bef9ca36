//! What an import finds out about the Gaussian splats of a glTF scene.

pub mod decode;
pub mod inspect;

use crate::text::{int_text, push_int};
use crate::variant::{
    bool_under, dict_bool, dict_dictionary, dict_i32, dict_string, dict_strings, dict_under,
    duplicate_texts, int_under, lookup, lookup_after_set, optional_text, text_under, texts,
    texts_under, with_entry, Dictionary, Entry, Value, Variant,
};
use vstd::prelude::*;
use vstd::string::*;

verus! {

pub const BASE_EXTENSION: &'static str = "KHR_gaussian_splatting";

pub const COMPRESSION_EXTENSION: &'static str = "KHR_gaussian_splatting_compression_spz_2";

pub const GLTF_STATE_KEY: &'static str = "godot_gsplat.import_state";

pub const NODE_STATE_KEY: &'static str = "godot_gsplat.node_state";

pub const PAYLOAD_LAYOUT_V1: &'static str = "gsplat.import.placeholder.v1";

pub const PAYLOAD_LAYOUT_FLOAT32_V1: &'static str = "gsplat.interleaved.float32.v1";

pub const FALLBACK_NONE: &'static str = "none";

pub const FALLBACK_COLOR_POINTS: &'static str = "color_points";

pub const DEFAULT_PROJECTION: &'static str = "perspective";

pub const DEFAULT_SORTING_METHOD: &'static str = "cameraDistance";

/// What is known of one imported splat cloud.
#[derive(Debug)]
pub struct ImportedSplatMetadata {
    pub source_extension: String,
    pub node_index: Option<i32>,
    pub mesh_index: Option<i32>,
    pub primitive_index: Option<i32>,
    pub kernel: Option<String>,
    pub color_space: Option<String>,
    pub projection: String,
    pub sorting_method: String,
    pub compression: Option<String>,
    pub point_count: i32,
    pub has_color_fallback: bool,
    pub fallback_mode: String,
    pub validation_errors: Vec<String>,
    pub validation_warnings: Vec<String>,
    pub raw_extensions: Dictionary,
}

/// The contents of the metadata.
#[verifier::ext_equal]
pub ghost struct MetadataView {
    pub source_extension: Seq<char>,
    pub node_index: Option<i32>,
    pub mesh_index: Option<i32>,
    pub primitive_index: Option<i32>,
    pub kernel: Option<Seq<char>>,
    pub color_space: Option<Seq<char>>,
    pub projection: Seq<char>,
    pub sorting_method: Seq<char>,
    pub compression: Option<Seq<char>>,
    pub point_count: i32,
    pub has_color_fallback: bool,
    pub fallback_mode: Seq<char>,
    pub validation_errors: Seq<Seq<char>>,
    pub validation_warnings: Seq<Seq<char>>,
    pub raw_extensions: Seq<Entry>,
}

impl View for ImportedSplatMetadata {
    type V = MetadataView;

    open spec fn view(&self) -> MetadataView {
        MetadataView {
            source_extension: self.source_extension@,
            node_index: self.node_index,
            mesh_index: self.mesh_index,
            primitive_index: self.primitive_index,
            kernel: optional_text(self.kernel),
            color_space: optional_text(self.color_space),
            projection: self.projection@,
            sorting_method: self.sorting_method@,
            compression: optional_text(self.compression),
            point_count: self.point_count,
            has_color_fallback: self.has_color_fallback,
            fallback_mode: self.fallback_mode@,
            validation_errors: texts(self.validation_errors@),
            validation_warnings: texts(self.validation_warnings@),
            raw_extensions: self.raw_extensions@,
        }
    }
}

/// Metadata that knows nothing.
pub open spec fn blank_metadata() -> MetadataView {
    MetadataView {
        source_extension: Seq::empty(),
        node_index: None,
        mesh_index: None,
        primitive_index: None,
        kernel: None,
        color_space: None,
        projection: Seq::empty(),
        sorting_method: Seq::empty(),
        compression: None,
        point_count: 0,
        has_color_fallback: false,
        fallback_mode: Seq::empty(),
        validation_errors: Seq::empty(),
        validation_warnings: Seq::empty(),
        raw_extensions: Seq::empty(),
    }
}

/// A text, or what stands in for it.
pub open spec fn text_or(text: Option<Seq<char>>, fallback: Seq<char>) -> Seq<char> {
    match text {
        Some(text) => text,
        None => fallback,
    }
}

/// The text under a key of a dictionary that may be missing.
pub open spec fn nested_text(dict: Option<Seq<Entry>>, key: Seq<char>) -> Option<Seq<char>> {
    match dict {
        Some(entries) => text_under(entries, key),
        None => None,
    }
}

/// Whether the extension says that the splats are compressed.
pub open spec fn names_compression(base: Option<Seq<Entry>>) -> bool {
    match base {
        Some(entries) => match dict_under(entries, "extensions"@) {
            Some(nested) => lookup(nested, COMPRESSION_EXTENSION@) is Some,
            None => false,
        },
        None => false,
    }
}

/// What the extensions of a primitive say.
pub open spec fn extension_metadata(source: Seq<char>, extensions: Seq<Entry>) -> MetadataView {
    let base = dict_under(extensions, BASE_EXTENSION@);
    let kernel = nested_text(base, "kernel"@);
    let color_space = nested_text(base, "colorSpace"@);
    let kernel_errors = if kernel is None {
        seq!["Gaussian splat extension is missing required property kernel."@]
    } else {
        Seq::empty()
    };
    let errors = if color_space is None {
        kernel_errors.push("Gaussian splat extension is missing required property colorSpace."@)
    } else {
        kernel_errors
    };
    MetadataView {
        source_extension: source,
        kernel,
        color_space,
        projection: text_or(nested_text(base, "projection"@), DEFAULT_PROJECTION@),
        sorting_method: text_or(nested_text(base, "sortingMethod"@), DEFAULT_SORTING_METHOD@),
        compression: if names_compression(base) {
            Some(COMPRESSION_EXTENSION@)
        } else {
            None
        },
        fallback_mode: FALLBACK_NONE@,
        validation_errors: errors,
        raw_extensions: extensions,
        ..blank_metadata()
    }
}

/// Appends a message to a list of messages.
pub fn push_message(messages: &mut Vec<String>, message: &str)
    ensures
        texts(final(messages)@) == texts(old(messages)@).push(message@),
{
    messages.push(message.to_owned());
    assert(texts(messages@) =~= texts(old(messages)@).push(message@));
}

/// A text, or what stands in for it.
fn string_or(text: Option<String>, fallback: &str) -> (result: String)
    ensures
        result@ == text_or(optional_text(text), fallback@),
{
    match text {
        Some(text) => text,
        None => fallback.to_owned(),
    }
}

impl Default for ImportedSplatMetadata {
    fn default() -> (metadata: ImportedSplatMetadata)
        ensures
            metadata@ == blank_metadata(),
    {
        let metadata = ImportedSplatMetadata {
            source_extension: String::new(),
            node_index: None,
            mesh_index: None,
            primitive_index: None,
            kernel: None,
            color_space: None,
            projection: String::new(),
            sorting_method: String::new(),
            compression: None,
            point_count: 0,
            has_color_fallback: false,
            fallback_mode: String::new(),
            validation_errors: Vec::new(),
            validation_warnings: Vec::new(),
            raw_extensions: Dictionary::new(),
        };
        assert(metadata@ =~= blank_metadata());
        metadata
    }
}

impl ImportedSplatMetadata {
    /// What the extensions of a primitive say.
    pub fn from_extensions(source_extension: &str, extensions: Dictionary) -> (metadata: Self)
        ensures
            metadata@ == extension_metadata(source_extension@, extensions@),
    {
        let mut metadata = ImportedSplatMetadata::default();
        metadata.source_extension = source_extension.to_owned();
        metadata.projection = DEFAULT_PROJECTION.to_owned();
        metadata.sorting_method = DEFAULT_SORTING_METHOD.to_owned();
        metadata.fallback_mode = FALLBACK_NONE.to_owned();
        if let Some(base) = dict_dictionary(&extensions, BASE_EXTENSION) {
            metadata.kernel = dict_string(base, "kernel");
            metadata.color_space = dict_string(base, "colorSpace");
            metadata.projection = string_or(dict_string(base, "projection"), DEFAULT_PROJECTION);
            metadata.sorting_method = string_or(
                dict_string(base, "sortingMethod"),
                DEFAULT_SORTING_METHOD,
            );
            if let Some(nested) = dict_dictionary(base, "extensions") {
                if nested.contains_key(COMPRESSION_EXTENSION) {
                    metadata.compression = Some(COMPRESSION_EXTENSION.to_owned());
                }
            }
        }
        if metadata.kernel.is_none() {
            push_message(
                &mut metadata.validation_errors,
                "Gaussian splat extension is missing required property kernel.",
            );
        }
        if metadata.color_space.is_none() {
            push_message(
                &mut metadata.validation_errors,
                "Gaussian splat extension is missing required property colorSpace.",
            );
        }
        metadata.raw_extensions = extensions;
        assert(metadata@ =~= extension_metadata(source_extension@, extensions@));
        metadata
    }

    /// Whether nothing was found wrong.
    pub fn is_valid(&self) -> (valid: bool)
        ensures
            valid == (self@.validation_errors.len() == 0),
    {
        self.validation_errors.len() == 0
    }
}

/// An index in decimal, or a dash if there is none.
pub open spec fn index_text(index: Option<i32>) -> Seq<char> {
    match index {
        Some(index) => int_text(index as int),
        None => "-"@,
    }
}

/// One line about the metadata.
pub open spec fn summary_text(m: MetadataView) -> Seq<char> {
    "extension="@ + m.source_extension + "; node="@ + index_text(m.node_index) + "; mesh="@
        + index_text(m.mesh_index) + "; primitive="@ + index_text(m.primitive_index) + "; points="@
        + int_text(m.point_count as int) + "; kernel="@ + text_or(m.kernel, "unknown"@)
        + "; color_space="@ + text_or(m.color_space, "unknown"@) + "; projection="@ + m.projection
        + "; sorting="@ + m.sorting_method + "; compression="@ + text_or(m.compression, "none"@)
        + "; validity="@ + (if m.validation_errors.len() == 0 {
        "valid"@
    } else {
        "invalid"@
    })
}

/// Appends an index, or a dash if there is none.
fn push_index(out: &mut String, index: Option<i32>)
    ensures
        final(out)@ == old(out)@ + index_text(index),
{
    match index {
        Some(index) => push_int(out, index as i64),
        None => out.append("-"),
    }
}

/// Appends a text, or what stands in for it.
fn push_or(out: &mut String, text: &Option<String>, fallback: &str)
    ensures
        final(out)@ == old(out)@ + text_or(optional_text(*text), fallback@),
{
    match text {
        Some(text) => out.append(text.as_str()),
        None => out.append(fallback),
    }
}

impl ImportedSplatMetadata {
    /// One line about the metadata.
    pub fn summary(&self) -> (text: String)
        ensures
            text@ == summary_text(self@),
    {
        let mut text: String = "extension=".to_owned();
        text.append(self.source_extension.as_str());
        text.append("; node=");
        push_index(&mut text, self.node_index);
        text.append("; mesh=");
        push_index(&mut text, self.mesh_index);
        text.append("; primitive=");
        push_index(&mut text, self.primitive_index);
        text.append("; points=");
        push_int(&mut text, self.point_count as i64);
        text.append("; kernel=");
        push_or(&mut text, &self.kernel, "unknown");
        text.append("; color_space=");
        push_or(&mut text, &self.color_space, "unknown");
        text.append("; projection=");
        text.append(self.projection.as_str());
        text.append("; sorting=");
        text.append(self.sorting_method.as_str());
        text.append("; compression=");
        push_or(&mut text, &self.compression, "none");
        text.append("; validity=");
        text.append(
            if self.is_valid() {
                "valid"
            } else {
                "invalid"
            },
        );
        text
    }
}

/// The entries with a text set under the key, if there is one.
pub open spec fn with_text(entries: Seq<Entry>, key: Seq<char>, text: Option<Seq<char>>) -> Seq<
    Entry,
> {
    match text {
        Some(text) => with_entry(entries, key, Value::Text(text)),
        None => entries,
    }
}

/// The entries with an index set under the key, if there is one.
pub open spec fn with_index(entries: Seq<Entry>, key: Seq<char>, index: Option<i32>) -> Seq<Entry> {
    match index {
        Some(index) => with_entry(entries, key, Value::Int(index as i64)),
        None => entries,
    }
}

/// The entries that hold the fields which are always there.
pub open spec fn fixed_entries(m: MetadataView) -> Seq<Entry> {
    let e1 = with_entry(Seq::empty(), "source_extension"@, Value::Text(m.source_extension));
    let e2 = with_entry(e1, "projection"@, Value::Text(m.projection));
    let e3 = with_entry(e2, "sorting_method"@, Value::Text(m.sorting_method));
    let e4 = with_entry(e3, "point_count"@, Value::Int(m.point_count as i64));
    let e5 = with_entry(e4, "has_color_fallback"@, Value::Bool(m.has_color_fallback));
    with_entry(e5, "fallback_mode"@, Value::Text(m.fallback_mode))
}

/// The entries that hold the fields which may be missing, too.
pub open spec fn optional_entries(m: MetadataView) -> Seq<Entry> {
    let e1 = with_text(fixed_entries(m), "kernel"@, m.kernel);
    let e2 = with_text(e1, "color_space"@, m.color_space);
    let e3 = with_text(e2, "compression"@, m.compression);
    let e4 = with_index(e3, "node_index"@, m.node_index);
    let e5 = with_index(e4, "mesh_index"@, m.mesh_index);
    with_index(e5, "primitive_index"@, m.primitive_index)
}

/// The entries of the dictionary that holds the metadata.
pub open spec fn metadata_entries(m: MetadataView) -> Seq<Entry> {
    let e1 = with_entry(optional_entries(m), "raw_extensions"@, Value::Dict(m.raw_extensions));
    let e2 = with_entry(e1, "validation_errors"@, Value::TextList(m.validation_errors));
    with_entry(e2, "validation_warnings"@, Value::TextList(m.validation_warnings))
}

/// The metadata that a dictionary holds.
pub open spec fn dictionary_metadata(entries: Seq<Entry>) -> MetadataView {
    MetadataView {
        source_extension: text_or(text_under(entries, "source_extension"@), BASE_EXTENSION@),
        node_index: int_under(entries, "node_index"@),
        mesh_index: int_under(entries, "mesh_index"@),
        primitive_index: int_under(entries, "primitive_index"@),
        kernel: text_under(entries, "kernel"@),
        color_space: text_under(entries, "color_space"@),
        projection: text_or(text_under(entries, "projection"@), DEFAULT_PROJECTION@),
        sorting_method: text_or(text_under(entries, "sorting_method"@), DEFAULT_SORTING_METHOD@),
        compression: text_under(entries, "compression"@),
        point_count: match int_under(entries, "point_count"@) {
            Some(count) => count,
            None => 0,
        },
        has_color_fallback: match bool_under(entries, "has_color_fallback"@) {
            Some(flag) => flag,
            None => false,
        },
        fallback_mode: text_or(text_under(entries, "fallback_mode"@), FALLBACK_NONE@),
        validation_errors: match texts_under(entries, "validation_errors"@) {
            Some(list) => list,
            None => Seq::empty(),
        },
        validation_warnings: match texts_under(entries, "validation_warnings"@) {
            Some(list) => list,
            None => Seq::empty(),
        },
        raw_extensions: match dict_under(entries, "raw_extensions"@) {
            Some(inner) => inner,
            None => Seq::empty(),
        },
    }
}

/// Sets a text under the key, if there is one.
fn set_text(dict: &mut Dictionary, key: &str, text: &Option<String>)
    ensures
        final(dict)@ == with_text(old(dict)@, key@, optional_text(*text)),
{
    if let Some(text) = text {
        dict.set(key, Variant::Text(text.clone()));
    }
}

/// Sets an index under the key, if there is one.
fn set_index(dict: &mut Dictionary, key: &str, index: Option<i32>)
    ensures
        final(dict)@ == with_index(old(dict)@, key@, index),
{
    if let Some(index) = index {
        dict.set(key, Variant::Int(index as i64));
    }
}

impl ImportedSplatMetadata {
    /// A dictionary that holds the metadata.
    pub fn to_dictionary(&self) -> (dict: Dictionary)
        ensures
            dict@ == metadata_entries(self@),
    {
        let mut dict = Dictionary::new();
        dict.set("source_extension", Variant::Text(self.source_extension.clone()));
        dict.set("projection", Variant::Text(self.projection.clone()));
        dict.set("sorting_method", Variant::Text(self.sorting_method.clone()));
        dict.set("point_count", Variant::Int(self.point_count as i64));
        dict.set("has_color_fallback", Variant::Bool(self.has_color_fallback));
        dict.set("fallback_mode", Variant::Text(self.fallback_mode.clone()));
        set_text(&mut dict, "kernel", &self.kernel);
        set_text(&mut dict, "color_space", &self.color_space);
        set_text(&mut dict, "compression", &self.compression);
        set_index(&mut dict, "node_index", self.node_index);
        set_index(&mut dict, "mesh_index", self.mesh_index);
        set_index(&mut dict, "primitive_index", self.primitive_index);
        dict.set("raw_extensions", Variant::Dict(self.raw_extensions.duplicate()));
        dict.set("validation_errors", Variant::TextList(duplicate_texts(&self.validation_errors)));
        dict.set(
            "validation_warnings",
            Variant::TextList(duplicate_texts(&self.validation_warnings)),
        );
        dict
    }

    /// The metadata that a dictionary holds.
    pub fn from_dictionary(dict: Dictionary) -> (metadata: Self)
        ensures
            metadata@ == dictionary_metadata(dict@),
    {
        let metadata = ImportedSplatMetadata {
            source_extension: string_or(dict_string(&dict, "source_extension"), BASE_EXTENSION),
            node_index: dict_i32(&dict, "node_index"),
            mesh_index: dict_i32(&dict, "mesh_index"),
            primitive_index: dict_i32(&dict, "primitive_index"),
            kernel: dict_string(&dict, "kernel"),
            color_space: dict_string(&dict, "color_space"),
            projection: string_or(dict_string(&dict, "projection"), DEFAULT_PROJECTION),
            sorting_method: string_or(
                dict_string(&dict, "sorting_method"),
                DEFAULT_SORTING_METHOD,
            ),
            compression: dict_string(&dict, "compression"),
            point_count: match dict_i32(&dict, "point_count") {
                Some(count) => count,
                None => 0,
            },
            has_color_fallback: match dict_bool(&dict, "has_color_fallback") {
                Some(flag) => flag,
                None => false,
            },
            fallback_mode: string_or(dict_string(&dict, "fallback_mode"), FALLBACK_NONE),
            validation_errors: match dict_strings(&dict, "validation_errors") {
                Some(list) => list,
                None => Vec::new(),
            },
            validation_warnings: match dict_strings(&dict, "validation_warnings") {
                Some(list) => list,
                None => Vec::new(),
            },
            raw_extensions: match dict_dictionary(&dict, "raw_extensions") {
                Some(inner) => inner.duplicate(),
                None => Dictionary::new(),
            },
        };
        proof {
            let want = dictionary_metadata(dict@);
            assert(metadata@.validation_errors =~= want.validation_errors);
            assert(metadata@.validation_warnings =~= want.validation_warnings);
            assert(metadata@ =~= want);
        }
        metadata
    }
}

/// No two keys of the metadata dictionary are the same.
pub proof fn lemma_keys_differ()
    ensures
        "source_extension"@.len() == 16,
        "projection"@.len() == 10,
        "sorting_method"@.len() == 14,
        "point_count"@.len() == 11,
        "has_color_fallback"@.len() == 18,
        "fallback_mode"@.len() == 13,
        "kernel"@.len() == 6,
        "color_space"@.len() == 11,
        "compression"@.len() == 11,
        "node_index"@.len() == 10,
        "mesh_index"@.len() == 10,
        "primitive_index"@.len() == 15,
        "raw_extensions"@.len() == 14,
        "validation_errors"@.len() == 17,
        "validation_warnings"@.len() == 19,
        "projection"@ != "node_index"@,
        "projection"@ != "mesh_index"@,
        "node_index"@ != "mesh_index"@,
        "point_count"@ != "color_space"@,
        "point_count"@ != "compression"@,
        "color_space"@ != "compression"@,
        "sorting_method"@ != "raw_extensions"@,
{
    reveal_strlit("source_extension");
    reveal_strlit("projection");
    reveal_strlit("sorting_method");
    reveal_strlit("point_count");
    reveal_strlit("has_color_fallback");
    reveal_strlit("fallback_mode");
    reveal_strlit("kernel");
    reveal_strlit("color_space");
    reveal_strlit("compression");
    reveal_strlit("node_index");
    reveal_strlit("mesh_index");
    reveal_strlit("primitive_index");
    reveal_strlit("raw_extensions");
    reveal_strlit("validation_errors");
    reveal_strlit("validation_warnings");
    assert("projection"@[0] == 'p' && "node_index"@[0] == 'n' && "mesh_index"@[0] == 'm');
    assert("point_count"@[0] == 'p' && "color_space"@[0] == 'c' && "compression"@[0] == 'c');
    assert("color_space"@[2] == 'l' && "compression"@[2] == 'm');
    assert("sorting_method"@[0] == 's' && "raw_extensions"@[0] == 'r');
}

/// What a lookup gives in the dictionary of the metadata, for any of its keys.
pub proof fn lemma_metadata_lookup(m: MetadataView, key: Seq<char>)
    ensures
        lookup(metadata_entries(m), key) == (if key == "validation_warnings"@ {
            Some(Value::TextList(m.validation_warnings))
        } else if key == "validation_errors"@ {
            Some(Value::TextList(m.validation_errors))
        } else if key == "raw_extensions"@ {
            Some(Value::Dict(m.raw_extensions))
        } else {
            lookup(optional_entries(m), key)
        }),
        lookup(optional_entries(m), key) == (if key == "primitive_index"@
            && m.primitive_index is Some {
            Some(Value::Int(m.primitive_index->0 as i64))
        } else if key == "mesh_index"@ && m.mesh_index is Some {
            Some(Value::Int(m.mesh_index->0 as i64))
        } else if key == "node_index"@ && m.node_index is Some {
            Some(Value::Int(m.node_index->0 as i64))
        } else if key == "compression"@ && m.compression is Some {
            Some(Value::Text(m.compression->0))
        } else if key == "color_space"@ && m.color_space is Some {
            Some(Value::Text(m.color_space->0))
        } else if key == "kernel"@ && m.kernel is Some {
            Some(Value::Text(m.kernel->0))
        } else {
            lookup(fixed_entries(m), key)
        }),
        lookup(fixed_entries(m), key) == (if key == "fallback_mode"@ {
            Some(Value::Text(m.fallback_mode))
        } else if key == "has_color_fallback"@ {
            Some(Value::Bool(m.has_color_fallback))
        } else if key == "point_count"@ {
            Some(Value::Int(m.point_count as i64))
        } else if key == "sorting_method"@ {
            Some(Value::Text(m.sorting_method))
        } else if key == "projection"@ {
            Some(Value::Text(m.projection))
        } else if key == "source_extension"@ {
            Some(Value::Text(m.source_extension))
        } else {
            None
        }),
{
    let f1 = with_entry(Seq::empty(), "source_extension"@, Value::Text(m.source_extension));
    let f2 = with_entry(f1, "projection"@, Value::Text(m.projection));
    let f3 = with_entry(f2, "sorting_method"@, Value::Text(m.sorting_method));
    let f4 = with_entry(f3, "point_count"@, Value::Int(m.point_count as i64));
    let f5 = with_entry(f4, "has_color_fallback"@, Value::Bool(m.has_color_fallback));
    lookup_after_set(Seq::empty(), "source_extension"@, Value::Text(m.source_extension), key);
    lookup_after_set(f1, "projection"@, Value::Text(m.projection), key);
    lookup_after_set(f2, "sorting_method"@, Value::Text(m.sorting_method), key);
    lookup_after_set(f3, "point_count"@, Value::Int(m.point_count as i64), key);
    lookup_after_set(f4, "has_color_fallback"@, Value::Bool(m.has_color_fallback), key);
    lookup_after_set(f5, "fallback_mode"@, Value::Text(m.fallback_mode), key);
    let o0 = fixed_entries(m);
    let o1 = with_text(o0, "kernel"@, m.kernel);
    let o2 = with_text(o1, "color_space"@, m.color_space);
    let o3 = with_text(o2, "compression"@, m.compression);
    let o4 = with_index(o3, "node_index"@, m.node_index);
    let o5 = with_index(o4, "mesh_index"@, m.mesh_index);
    if let Some(text) = m.kernel {
        lookup_after_set(o0, "kernel"@, Value::Text(text), key);
    }
    if let Some(text) = m.color_space {
        lookup_after_set(o1, "color_space"@, Value::Text(text), key);
    }
    if let Some(text) = m.compression {
        lookup_after_set(o2, "compression"@, Value::Text(text), key);
    }
    if let Some(index) = m.node_index {
        lookup_after_set(o3, "node_index"@, Value::Int(index as i64), key);
    }
    if let Some(index) = m.mesh_index {
        lookup_after_set(o4, "mesh_index"@, Value::Int(index as i64), key);
    }
    if let Some(index) = m.primitive_index {
        lookup_after_set(o5, "primitive_index"@, Value::Int(index as i64), key);
    }
    let r0 = optional_entries(m);
    let r1 = with_entry(r0, "raw_extensions"@, Value::Dict(m.raw_extensions));
    let r2 = with_entry(r1, "validation_errors"@, Value::TextList(m.validation_errors));
    lookup_after_set(r0, "raw_extensions"@, Value::Dict(m.raw_extensions), key);
    lookup_after_set(r1, "validation_errors"@, Value::TextList(m.validation_errors), key);
    lookup_after_set(r2, "validation_warnings"@, Value::TextList(m.validation_warnings), key);
}

/// Metadata put into a dictionary and taken out again is the same.
pub proof fn metadata_round_trips(m: MetadataView)
    ensures
        dictionary_metadata(metadata_entries(m)) == m,
{
    lemma_keys_differ();
    lemma_metadata_lookup(m, "source_extension"@);
    lemma_metadata_lookup(m, "projection"@);
    lemma_metadata_lookup(m, "sorting_method"@);
    lemma_metadata_lookup(m, "point_count"@);
    lemma_metadata_lookup(m, "has_color_fallback"@);
    lemma_metadata_lookup(m, "fallback_mode"@);
    lemma_metadata_lookup(m, "kernel"@);
    lemma_metadata_lookup(m, "color_space"@);
    lemma_metadata_lookup(m, "compression"@);
    lemma_metadata_lookup(m, "node_index"@);
    lemma_metadata_lookup(m, "mesh_index"@);
    lemma_metadata_lookup(m, "primitive_index"@);
    lemma_metadata_lookup(m, "raw_extensions"@);
    lemma_metadata_lookup(m, "validation_errors"@);
    lemma_metadata_lookup(m, "validation_warnings"@);
}

} // verus!
