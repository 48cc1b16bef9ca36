//! The preview options of an import, and where they are kept.
//!
//! A regular import takes them from the import dialog. A preview of the import settings takes them
//! from the saved `.import` file. Both read and apply them in the same way.

use crate::cloud_settings::{
    GaussianSplatCloudSettings, MIN_PREVIEW_SPLAT_RADIUS_BITS, MIN_SCALE_MULTIPLIER_BITS,
};
use crate::floats::F32;
use crate::node::state::{
    cloud_of, customized, dirtied, showing, with_cloud, GaussianSplatNode3D, NodeView,
};
use crate::text::{ends_in, ends_with};
use crate::variant::{
    entries_of, entry_of, lookup, value_of, values_of, DictEntry, Dictionary, Entry, Value,
    Variant,
};
use vstd::prelude::*;
use vstd::string::*;

verus! {

/// How many splats are shown.
pub const OPTION_PREVIEW_MAX_SPLATS: &'static str = "gsplat/preview_max_splats";

/// The radius that splats are limited to.
pub const OPTION_PREVIEW_MAX_SPLAT_RADIUS: &'static str = "gsplat/preview_max_splat_radius";

/// What the size of splats is multiplied with.
pub const OPTION_PREVIEW_SCALE_MULTIPLIER: &'static str = "gsplat/preview_scale_multiplier";

/// How many splats are shown, for one node.
pub const INTERNAL_OPTION_PREVIEW_MAX_SPLATS: &'static str = "gsplat_preview/preview_max_splats";

/// The radius that splats are limited to, for one node.
pub const INTERNAL_OPTION_PREVIEW_MAX_SPLAT_RADIUS: &'static str =
    "gsplat_preview/preview_max_splat_radius";

/// What the size of splats is multiplied with, for one node.
pub const INTERNAL_OPTION_PREVIEW_SCALE_MULTIPLIER: &'static str =
    "gsplat_preview/preview_scale_multiplier";

/// Where the options of single nodes are kept.
pub const SUBRESOURCES_KEY: &'static str = "_subresources";

/// The largest number shows every splat: a node limits it to the points that there are.
pub const PREVIEW_MAX_SPLATS_DEFAULT: i32 = i32::MAX;

/// Preview options. One that is not given leaves what a node has.
#[derive(Clone, Copy, Debug, PartialEq, Eq, Structural)]
pub struct PreviewImportOptions {
    pub max_splats: Option<i32>,
    pub max_splat_radius: Option<F32>,
    pub scale_multiplier: Option<F32>,
}

/// An integer moved into the range of 32 bits.
pub open spec fn clamped(number: i64) -> i32 {
    if number < i32::MIN {
        i32::MIN
    } else if number > i32::MAX {
        i32::MAX
    } else {
        number as i32
    }
}

/// The integer that an option is.
pub open spec fn option_int(value: Value) -> Option<i32> {
    match value {
        Value::Int(number) => Some(clamped(number)),
        _ => None,
    }
}

/// The number that an option is, in single precision.
pub open spec fn option_float(value: Value) -> Option<F32> {
    match value {
        Value::Float(number) => Some(number.single),
        _ => None,
    }
}

/// The integer that an option is.
pub fn variant_to_i32(value: &Variant) -> (result: Option<i32>)
    ensures
        result == option_int(value@),
{
    match value {
        Variant::Int(number) => if *number < i32::MIN as i64 {
            Some(i32::MIN)
        } else if *number > i32::MAX as i64 {
            Some(i32::MAX)
        } else {
            Some(*number as i32)
        },
        _ => None,
    }
}

/// The number that an option is, in single precision.
pub fn variant_to_f32(value: &Variant) -> (result: Option<F32>)
    ensures
        result == option_float(value@),
{
    match value {
        Variant::Float(number) => Some(number.single),
        _ => None,
    }
}

/// The first value under a name, anywhere within a value: what a dictionary has under it, and else
/// what is first found within its values, or within those of a list.
pub open spec fn find_value(value: Value, name: Seq<char>) -> Option<Value>
    decreases value, 0nat,
{
    match value {
        Value::Dict(entries) => match lookup(entries, name) {
            Some(found) => Some(found),
            None => find_in_entries(entries, name, entries.len()),
        },
        Value::List(items) => find_in_items(items, name, items.len()),
        _ => None,
    }
}

/// The first value under a name within one entry.
pub open spec fn find_in_entry(entry: Entry, name: Seq<char>) -> Option<Value>
    decreases entry, 0nat,
{
    find_value(entry.value, name)
}

/// The first value under a name within the first `n` entries.
pub open spec fn find_in_entries(entries: Seq<Entry>, name: Seq<char>, n: nat) -> Option<Value>
    decreases entries, n,
{
    if n == 0 || n > entries.len() {
        None
    } else {
        match find_in_entries(entries, name, (n - 1) as nat) {
            Some(found) => Some(found),
            None => find_in_entry(entries[n - 1], name),
        }
    }
}

/// The first value under a name within the first `n` items.
pub open spec fn find_in_items(items: Seq<Value>, name: Seq<char>, n: nat) -> Option<Value>
    decreases items, n,
{
    if n == 0 || n > items.len() {
        None
    } else {
        match find_in_items(items, name, (n - 1) as nat) {
            Some(found) => Some(found),
            None => find_value(items[n - 1], name),
        }
    }
}

/// The first value under a name, anywhere within a value.
pub fn find_option<'a>(value: &'a Variant, name: &str) -> (found: Option<&'a Variant>)
    ensures
        match found {
            Some(found) => find_value(value@, name@) == Some(found@),
            None => find_value(value@, name@) is None,
        },
    decreases value,
{
    match value {
        Variant::Dict(dict) => {
            if let Some(found) = dict.get(name) {
                return Some(found);
            }
            search_entries(&dict.entries, name)
        },
        Variant::List(items) => search_items(items, name),
        _ => None,
    }
}

/// The first value under a name within the entries.
fn search_entries<'a>(entries: &'a Vec<DictEntry>, name: &str) -> (found: Option<&'a Variant>)
    ensures
        match found {
            Some(found) => find_in_entries(entries_of(entries@), name@, entries@.len()) == Some(
                found@,
            ),
            None => find_in_entries(entries_of(entries@), name@, entries@.len()) is None,
        },
    decreases entries,
{
    let ghost all = entries_of(entries@);
    let mut i: usize = 0;
    while i < entries.len()
        invariant
            i <= entries@.len(),
            all == entries_of(entries@),
            find_in_entries(all, name@, i as nat) is None,
        decreases entries@.len() - i,
    {
        assert(all[i as int] == entry_of(entries@[i as int]));
        let found: Option<&Variant> = find_option(&entries[i].value, name);
        assert(find_in_entry(all[i as int], name@) == find_value(entries@[i as int].value@, name@));
        if found.is_some() {
            proof {
                lemma_found_early(all, name@, (i + 1) as nat, all.len());
            }
            return found;
        }
        i = i + 1;
    }
    None
}

/// The first value under a name within the items.
fn search_items<'a>(items: &'a Vec<Variant>, name: &str) -> (found: Option<&'a Variant>)
    ensures
        match found {
            Some(found) => find_in_items(values_of(items@), name@, items@.len()) == Some(found@),
            None => find_in_items(values_of(items@), name@, items@.len()) is None,
        },
    decreases items,
{
    let ghost all = values_of(items@);
    let mut i: usize = 0;
    while i < items.len()
        invariant
            i <= items@.len(),
            all == values_of(items@),
            find_in_items(all, name@, i as nat) is None,
        decreases items@.len() - i,
    {
        assert(all[i as int] == value_of(items@[i as int]));
        let found: Option<&Variant> = find_option(&items[i], name);
        if found.is_some() {
            proof {
                lemma_found_early_item(all, name@, (i + 1) as nat, all.len());
            }
            return found;
        }
        i = i + 1;
    }
    None
}

/// What is found among the first entries is found among all.
proof fn lemma_found_early(entries: Seq<Entry>, name: Seq<char>, m: nat, n: nat)
    requires
        m <= n <= entries.len(),
        find_in_entries(entries, name, m) is Some,
    ensures
        find_in_entries(entries, name, n) == find_in_entries(entries, name, m),
    decreases n,
{
    if m < n {
        lemma_found_early(entries, name, m, (n - 1) as nat);
    }
}

/// What is found among the first items is found among all.
proof fn lemma_found_early_item(items: Seq<Value>, name: Seq<char>, m: nat, n: nat)
    requires
        m <= n <= items.len(),
        find_in_items(items, name, m) is Some,
    ensures
        find_in_items(items, name, n) == find_in_items(items, name, m),
    decreases n,
{
    if m < n {
        lemma_found_early_item(items, name, m, (n - 1) as nat);
    }
}

/// The integer that the first value under a name is.
pub open spec fn int_within(value: Value, name: Seq<char>) -> Option<i32> {
    match find_value(value, name) {
        Some(found) => option_int(found),
        None => None,
    }
}

/// The number that the first value under a name is.
pub open spec fn float_within(value: Value, name: Seq<char>) -> Option<F32> {
    match find_value(value, name) {
        Some(found) => option_float(found),
        None => None,
    }
}

/// The first of three that is there.
pub open spec fn first_of<T>(a: Option<T>, b: Option<T>, c: Option<T>) -> Option<T> {
    if a is Some {
        a
    } else if b is Some {
        b
    } else {
        c
    }
}

/// Options after those of single nodes were laid over them. The name for single nodes wins over the
/// general one, and both win over what was there.
pub open spec fn merged(options: PreviewImportOptions, subresources: Value) -> PreviewImportOptions {
    PreviewImportOptions {
        max_splats: first_of(
            int_within(subresources, INTERNAL_OPTION_PREVIEW_MAX_SPLATS@),
            int_within(subresources, OPTION_PREVIEW_MAX_SPLATS@),
            options.max_splats,
        ),
        max_splat_radius: first_of(
            float_within(subresources, INTERNAL_OPTION_PREVIEW_MAX_SPLAT_RADIUS@),
            float_within(subresources, OPTION_PREVIEW_MAX_SPLAT_RADIUS@),
            options.max_splat_radius,
        ),
        scale_multiplier: first_of(
            float_within(subresources, INTERNAL_OPTION_PREVIEW_SCALE_MULTIPLIER@),
            float_within(subresources, OPTION_PREVIEW_SCALE_MULTIPLIER@),
            options.scale_multiplier,
        ),
    }
}

/// Whether no option is given.
pub open spec fn gives_nothing(options: PreviewImportOptions) -> bool {
    options.max_splats is None && options.max_splat_radius is None && options.scale_multiplier
        is None
}

/// The integer under a key.
pub open spec fn int_param(params: Seq<Entry>, key: Seq<char>) -> Option<i32> {
    match lookup(params, key) {
        Some(value) => option_int(value),
        None => None,
    }
}

/// The number under a key.
pub open spec fn float_param(params: Seq<Entry>, key: Seq<char>) -> Option<F32> {
    match lookup(params, key) {
        Some(value) => option_float(value),
        None => None,
    }
}

/// The options that saved parameters give.
pub open spec fn saved_options(params: Seq<Entry>) -> PreviewImportOptions {
    let general = PreviewImportOptions {
        max_splats: int_param(params, OPTION_PREVIEW_MAX_SPLATS@),
        max_splat_radius: float_param(params, OPTION_PREVIEW_MAX_SPLAT_RADIUS@),
        scale_multiplier: float_param(params, OPTION_PREVIEW_SCALE_MULTIPLIER@),
    };
    match lookup(params, SUBRESOURCES_KEY@) {
        Some(subresources) => merged(general, subresources),
        None => general,
    }
}

/// The integer that the first value under a name is.
fn find_i32_option(value: &Variant, name: &str) -> (result: Option<i32>)
    ensures
        result == int_within(value@, name@),
{
    match find_option(value, name) {
        Some(found) => variant_to_i32(found),
        None => None,
    }
}

/// The number that the first value under a name is.
fn find_f32_option(value: &Variant, name: &str) -> (result: Option<F32>)
    ensures
        result == float_within(value@, name@),
{
    match find_option(value, name) {
        Some(found) => variant_to_f32(found),
        None => None,
    }
}

/// The integer under a key.
fn config_i32(params: &Dictionary, key: &str) -> (result: Option<i32>)
    ensures
        result == int_param(params@, key@),
{
    match params.get(key) {
        Some(value) => variant_to_i32(value),
        None => None,
    }
}

/// The number under a key.
fn config_f32(params: &Dictionary, key: &str) -> (result: Option<F32>)
    ensures
        result == float_param(params@, key@),
{
    match params.get(key) {
        Some(value) => variant_to_f32(value),
        None => None,
    }
}

impl Default for PreviewImportOptions {
    fn default() -> (options: PreviewImportOptions)
        ensures
            gives_nothing(options),
    {
        PreviewImportOptions { max_splats: None, max_splat_radius: None, scale_multiplier: None }
    }
}

impl PreviewImportOptions {
    /// Whether no option is given.
    pub fn is_empty(&self) -> (result: bool)
        ensures
            result == gives_nothing(*self),
    {
        self.max_splats.is_none() && self.max_splat_radius.is_none()
            && self.scale_multiplier.is_none()
    }

    /// The options that the parameters of a saved `.import` file give, if they give any.
    pub fn from_saved_import_file(params: &Dictionary) -> (options: Option<PreviewImportOptions>)
        ensures
            options == (if gives_nothing(saved_options(params@)) {
                None
            } else {
                Some(saved_options(params@))
            }),
    {
        let mut options = PreviewImportOptions {
            max_splats: config_i32(params, OPTION_PREVIEW_MAX_SPLATS),
            max_splat_radius: config_f32(params, OPTION_PREVIEW_MAX_SPLAT_RADIUS),
            scale_multiplier: config_f32(params, OPTION_PREVIEW_SCALE_MULTIPLIER),
        };
        if let Some(subresources) = params.get(SUBRESOURCES_KEY) {
            options.merge_subresources(subresources);
        }
        if options.is_empty() {
            None
        } else {
            Some(options)
        }
    }

    /// Lays the options of single nodes over these.
    pub fn merge_subresources(&mut self, subresources: &Variant)
        ensures
            *final(self) == merged(*old(self), subresources@),
    {
        let internal: Option<i32> = find_i32_option(
            subresources,
            INTERNAL_OPTION_PREVIEW_MAX_SPLATS,
        );
        if internal.is_some() {
            self.max_splats = internal;
        } else {
            let general: Option<i32> = find_i32_option(subresources, OPTION_PREVIEW_MAX_SPLATS);
            if general.is_some() {
                self.max_splats = general;
            }
        }
        let internal: Option<F32> = find_f32_option(
            subresources,
            INTERNAL_OPTION_PREVIEW_MAX_SPLAT_RADIUS,
        );
        if internal.is_some() {
            self.max_splat_radius = internal;
        } else {
            let general: Option<F32> = find_f32_option(
                subresources,
                OPTION_PREVIEW_MAX_SPLAT_RADIUS,
            );
            if general.is_some() {
                self.max_splat_radius = general;
            }
        }
        let internal: Option<F32> = find_f32_option(
            subresources,
            INTERNAL_OPTION_PREVIEW_SCALE_MULTIPLIER,
        );
        if internal.is_some() {
            self.scale_multiplier = internal;
        } else {
            let general: Option<F32> = find_f32_option(
                subresources,
                OPTION_PREVIEW_SCALE_MULTIPLIER,
            );
            if general.is_some() {
                self.scale_multiplier = general;
            }
        }
    }
}

/// A node after the options that are given were applied to it.
pub open spec fn with_options(node: NodeView, options: PreviewImportOptions) -> NodeView {
    let a = match options.max_splats {
        Some(max_splats) => dirtied(
            showing(customized(node), max_splats),
            "preview_max_splats"@,
        ),
        None => node,
    };
    let b = match options.max_splat_radius {
        Some(radius) => dirtied(
            with_cloud(
                a,
                GaussianSplatCloudSettings {
                    max_preview_splat_radius: radius.larger(
                        F32 { bits: MIN_PREVIEW_SPLAT_RADIUS_BITS },
                    ),
                    ..cloud_of(a)
                },
            ),
            "preview_max_splat_radius"@,
        ),
        None => a,
    };
    match options.scale_multiplier {
        Some(scale) => dirtied(
            with_cloud(
                b,
                GaussianSplatCloudSettings {
                    gaussian_scale_multiplier: scale.larger(
                        F32 { bits: MIN_SCALE_MULTIPLIER_BITS },
                    ),
                    ..cloud_of(b)
                },
            ),
            "preview_scale_multiplier"@,
        ),
        None => b,
    }
}

impl PreviewImportOptions {
    /// Applies the options that are given to a node.
    pub fn apply_to_node(&self, node: &mut GaussianSplatNode3D)
        ensures
            final(node)@ == with_options(old(node)@, *self),
    {
        if let Some(max_splats) = self.max_splats {
            node.set_preview_max_splats(max_splats);
        }
        if let Some(max_splat_radius) = self.max_splat_radius {
            node.set_preview_max_splat_radius(max_splat_radius);
        }
        if let Some(scale_multiplier) = self.scale_multiplier {
            node.set_preview_scale_multiplier(scale_multiplier);
        }
    }
}

/// The path of an import file in a directory.
pub open spec fn import_path(base: Seq<char>, filename: Seq<char>, extension: Seq<char>) -> Seq<
    char,
> {
    let file = filename + extension + ".import"@;
    if base.len() == 0 {
        file
    } else if base.last() == '/' {
        base + file
    } else {
        base + "/"@ + file
    }
}

/// The paths at which the import file of a scene may be. A name without an extension stands for
/// both kinds of scene files; the name alone comes last.
pub open spec fn import_paths(base: Seq<char>, filename: Seq<char>) -> Seq<Seq<char>> {
    let in_directory = if ends_in(filename, ".gltf"@) || ends_in(filename, ".glb"@) {
        seq![import_path(base, filename, ""@)]
    } else {
        seq![import_path(base, filename, ".gltf"@), import_path(base, filename, ".glb"@)]
    };
    in_directory.push(filename + ".import"@)
}

/// The path of an import file in a directory.
fn join_import_path(base_path: &str, filename: &str, extension: &str) -> (path: String)
    ensures
        path@ == import_path(base_path@, filename@, extension@),
{
    let length: usize = base_path.unicode_len();
    let mut path: String = base_path.to_owned();
    proof {
        reveal_strlit("/");
        reveal_strlit("");
    }
    if length > 0 && base_path.get_char(length - 1) != '/' {
        path.append("/");
    }
    path.append(filename);
    path.append(extension);
    path.append(".import");
    proof {
        let file = filename@ + extension@ + ".import"@;
        if length == 0 {
            assert(path@ =~= file);
        } else if base_path@.last() == '/' {
            assert(path@ =~= base_path@ + file);
        } else {
            assert(path@ =~= base_path@ + "/"@ + file);
        }
    }
    path
}

/// The paths at which the import file of a scene may be, the likeliest first.
pub fn import_path_candidates(base_path: &str, filename: &str) -> (paths: Vec<String>)
    ensures
        crate::variant::texts(paths@) == import_paths(base_path@, filename@),
{
    let mut paths: Vec<String> = Vec::new();
    if ends_with(filename, ".gltf") || ends_with(filename, ".glb") {
        paths.push(join_import_path(base_path, filename, ""));
    } else {
        paths.push(join_import_path(base_path, filename, ".gltf"));
        paths.push(join_import_path(base_path, filename, ".glb"));
    }
    let mut alone: String = filename.to_owned();
    alone.append(".import");
    paths.push(alone);
    assert(crate::variant::texts(paths@) =~= import_paths(base_path@, filename@));
    paths
}

} // verus!
