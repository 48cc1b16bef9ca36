//! The options that the import dialog offers for splat clouds.

use crate::cloud_settings::DEFAULT_MAX_PREVIEW_SPLAT_RADIUS_BITS;
use crate::engine::{mesh_3d_node_category_ord, node_category_ord, skeleton_3d_node_category_ord};
use crate::floats::{F32, ONE_BITS};
use crate::import_options::{
    float_param, gives_nothing, int_param, merged, option_float, option_int, saved_options,
    variant_to_f32, variant_to_i32, PreviewImportOptions, INTERNAL_OPTION_PREVIEW_MAX_SPLATS,
    INTERNAL_OPTION_PREVIEW_MAX_SPLAT_RADIUS, INTERNAL_OPTION_PREVIEW_SCALE_MULTIPLIER,
    OPTION_PREVIEW_MAX_SPLATS, OPTION_PREVIEW_MAX_SPLAT_RADIUS, OPTION_PREVIEW_SCALE_MULTIPLIER,
    PREVIEW_MAX_SPLATS_DEFAULT, SUBRESOURCES_KEY,
};
use crate::text::{ends_in, ends_with_any_case, lower_cased, text_eq};
use crate::variant::{lookup, Entry, Value, Variant};
use vstd::prelude::*;
use vstd::string::*;

verus! {

/// Whether the dialog offers the options for a file: for scenes, and where no file is named.
pub open spec fn offers_options(path: Seq<char>) -> bool {
    path.len() == 0 || ends_in(lower_cased(path), ".gltf"@) || ends_in(lower_cased(path), ".glb"@)
}

/// Whether the dialog offers the options for a file.
pub fn should_add_options_for_path(path: &str) -> (result: bool)
    ensures
        result == offers_options(path@),
{
    path.unicode_len() == 0 || ends_with_any_case(path, ".gltf") || ends_with_any_case(path, ".glb")
}

/// Whether a category is that of nodes: plain ones, meshes, skeletons.
pub open spec fn node_like(category: i32) -> bool {
    category == 0 || category == 1 || category == 6
}

/// Whether a category is that of nodes.
pub fn is_node_like_category(category: i32) -> (result: bool)
    ensures
        result == node_like(category),
{
    category == node_category_ord() || category == mesh_3d_node_category_ord() || category
        == skeleton_3d_node_category_ord()
}

/// Whether a name is that of an option for a whole scene.
pub open spec fn names_general_option(option: Seq<char>) -> bool {
    option == OPTION_PREVIEW_MAX_SPLATS@ || option == OPTION_PREVIEW_MAX_SPLAT_RADIUS@ || option
        == OPTION_PREVIEW_SCALE_MULTIPLIER@
}

/// Whether a name is that of an option for a whole scene.
pub fn is_general_preview_option(option: &str) -> (result: bool)
    ensures
        result == names_general_option(option@),
{
    text_eq(option, OPTION_PREVIEW_MAX_SPLATS) || text_eq(option, OPTION_PREVIEW_MAX_SPLAT_RADIUS)
        || text_eq(option, OPTION_PREVIEW_SCALE_MULTIPLIER)
}

/// Whether a name is that of an option for one node.
pub open spec fn names_internal_option(option: Seq<char>) -> bool {
    option == INTERNAL_OPTION_PREVIEW_MAX_SPLATS@ || option
        == INTERNAL_OPTION_PREVIEW_MAX_SPLAT_RADIUS@ || option
        == INTERNAL_OPTION_PREVIEW_SCALE_MULTIPLIER@
}

/// Whether a name is that of an option for one node.
pub fn is_internal_preview_option(option: &str) -> (result: bool)
    ensures
        result == names_internal_option(option@),
{
    text_eq(option, INTERNAL_OPTION_PREVIEW_MAX_SPLATS) || text_eq(
        option,
        INTERNAL_OPTION_PREVIEW_MAX_SPLAT_RADIUS,
    ) || text_eq(option, INTERNAL_OPTION_PREVIEW_SCALE_MULTIPLIER)
}

/// Whether the dialog shows an option for a file. Of options that are not ours nothing is said.
pub fn option_visibility(path: &str, option: &str) -> (visible: Option<bool>)
    ensures
        visible == (if offers_options(path@) && names_general_option(option@) {
            Some(true)
        } else {
            None
        }),
{
    if should_add_options_for_path(path) && is_general_preview_option(option) {
        Some(true)
    } else {
        None
    }
}

/// Whether the dialog shows an option for a category. Of options that are not ours nothing is said.
pub fn internal_option_visibility(category: i32, option: &str) -> (visible: Option<bool>)
    ensures
        visible == (if names_internal_option(option@) {
            Some(node_like(category))
        } else {
            None
        }),
{
    if is_internal_preview_option(option) {
        Some(is_node_like_category(category))
    } else {
        None
    }
}

/// Whether the dialog has to be shown anew when an option changes.
pub fn internal_option_update_view_required(category: i32, option: &str) -> (required: bool)
    ensures
        required == (node_like(category) && names_internal_option(option@)),
{
    is_node_like_category(category) && is_internal_preview_option(option)
}

/// What an option starts with.
#[derive(Clone, Copy, Debug, PartialEq, Eq, Structural)]
pub enum OptionDefault {
    Int(i32),
    Float(F32),
}

/// An option of the dialog: its name, what it starts with, and its range.
#[derive(Clone, Copy, Debug)]
pub struct DialogOption {
    pub name: &'static str,
    pub default: OptionDefault,
    pub range: &'static str,
}

/// Whether `options` are the three options under the given names.
pub open spec fn are_preview_options(
    options: Seq<DialogOption>,
    max_splats: Seq<char>,
    max_splat_radius: Seq<char>,
    scale_multiplier: Seq<char>,
) -> bool {
    &&& options.len() == 3
    &&& options[0].name@ == max_splats
    &&& options[0].default == OptionDefault::Int(PREVIEW_MAX_SPLATS_DEFAULT)
    &&& options[0].range@ == "0,1,or_greater"@
    &&& options[1].name@ == max_splat_radius
    &&& options[1].default == OptionDefault::Float(
        F32 { bits: DEFAULT_MAX_PREVIEW_SPLAT_RADIUS_BITS },
    )
    &&& options[1].range@ == "0.001,1.0,0.001"@
    &&& options[2].name@ == scale_multiplier
    &&& options[2].default == OptionDefault::Float(F32 { bits: ONE_BITS })
    &&& options[2].range@ == "0.01,64.0,0.01"@
}

/// The three options under the given names.
fn preview_options(
    max_splats: &'static str,
    max_splat_radius: &'static str,
    scale_multiplier: &'static str,
) -> (options: Vec<DialogOption>)
    ensures
        are_preview_options(
            options@,
            max_splats@,
            max_splat_radius@,
            scale_multiplier@,
        ),
{
    vec![
        DialogOption {
            name: max_splats,
            default: OptionDefault::Int(PREVIEW_MAX_SPLATS_DEFAULT),
            range: "0,1,or_greater",
        },
        DialogOption {
            name: max_splat_radius,
            default: OptionDefault::Float(F32 { bits: DEFAULT_MAX_PREVIEW_SPLAT_RADIUS_BITS }),
            range: "0.001,1.0,0.001",
        },
        DialogOption {
            name: scale_multiplier,
            default: OptionDefault::Float(F32 { bits: ONE_BITS }),
            range: "0.01,64.0,0.01",
        },
    ]
}

/// The options for a whole scene.
pub fn general_preview_options() -> (options: Vec<DialogOption>)
    ensures
        are_preview_options(
            options@,
            OPTION_PREVIEW_MAX_SPLATS@,
            OPTION_PREVIEW_MAX_SPLAT_RADIUS@,
            OPTION_PREVIEW_SCALE_MULTIPLIER@,
        ),
{
    preview_options(
        OPTION_PREVIEW_MAX_SPLATS,
        OPTION_PREVIEW_MAX_SPLAT_RADIUS,
        OPTION_PREVIEW_SCALE_MULTIPLIER,
    )
}

/// The options for one node.
pub fn internal_preview_options() -> (options: Vec<DialogOption>)
    ensures
        are_preview_options(
            options@,
            INTERNAL_OPTION_PREVIEW_MAX_SPLATS@,
            INTERNAL_OPTION_PREVIEW_MAX_SPLAT_RADIUS@,
            INTERNAL_OPTION_PREVIEW_SCALE_MULTIPLIER@,
        ),
{
    preview_options(
        INTERNAL_OPTION_PREVIEW_MAX_SPLATS,
        INTERNAL_OPTION_PREVIEW_MAX_SPLAT_RADIUS,
        INTERNAL_OPTION_PREVIEW_SCALE_MULTIPLIER,
    )
}

/// The options that the dialog gives; where it gives none, what they start with.
pub open spec fn dialog_options(
    max_splats: Value,
    max_splat_radius: Value,
    scale_multiplier: Value,
) -> PreviewImportOptions {
    PreviewImportOptions {
        max_splats: Some(
            match option_int(max_splats) {
                Some(number) => number,
                None => PREVIEW_MAX_SPLATS_DEFAULT,
            },
        ),
        max_splat_radius: Some(
            match option_float(max_splat_radius) {
                Some(number) => number,
                None => F32 { bits: DEFAULT_MAX_PREVIEW_SPLAT_RADIUS_BITS },
            },
        ),
        scale_multiplier: Some(
            match option_float(scale_multiplier) {
                Some(number) => number,
                None => F32 { bits: ONE_BITS },
            },
        ),
    }
}

/// The options that the dialog gives.
pub fn read_options(max_splats: &Variant, max_splat_radius: &Variant, scale_multiplier: &Variant)
    -> (options: PreviewImportOptions)
    ensures
        options == dialog_options(max_splats@, max_splat_radius@, scale_multiplier@),
        !gives_nothing(options),
{
    PreviewImportOptions {
        max_splats: Some(
            match variant_to_i32(max_splats) {
                Some(number) => number,
                None => PREVIEW_MAX_SPLATS_DEFAULT,
            },
        ),
        max_splat_radius: Some(
            match variant_to_f32(max_splat_radius) {
                Some(number) => number,
                None => F32 { bits: DEFAULT_MAX_PREVIEW_SPLAT_RADIUS_BITS },
            },
        ),
        scale_multiplier: Some(
            match variant_to_f32(scale_multiplier) {
                Some(number) => number,
                None => F32 { bits: ONE_BITS },
            },
        ),
    }
}

/// The options of the import that is under way.
#[derive(Clone, Copy, Debug, PartialEq, Eq, Structural)]
pub struct GsplatScenePostImportPlugin {
    pub cached_options: Option<PreviewImportOptions>,
}

/// The options that are kept, or else the ones that were read.
pub open spec fn options_in_use(
    plugin: GsplatScenePostImportPlugin,
    read: PreviewImportOptions,
) -> PreviewImportOptions {
    match plugin.cached_options {
        Some(options) => options,
        None => read,
    }
}

impl Default for GsplatScenePostImportPlugin {
    fn default() -> (plugin: GsplatScenePostImportPlugin)
        ensures
            plugin.cached_options is None,
    {
        GsplatScenePostImportPlugin { cached_options: None }
    }
}

impl GsplatScenePostImportPlugin {
    /// Before an import: keeps the options that were read, with those of single nodes over them.
    pub fn pre_process(&mut self, read: PreviewImportOptions, subresources: &Variant)
        ensures
            final(self).cached_options == Some(merged(read, subresources@)),
    {
        let mut options: PreviewImportOptions = read;
        options.merge_subresources(subresources);
        self.cached_options = Some(options);
    }

    /// During an import: the options for what has the given category, if it is a node.
    pub fn internal_process(&self, category: i32, read: PreviewImportOptions) -> (options: Option<
        PreviewImportOptions,
    >)
        ensures
            options == (if node_like(category) {
                Some(options_in_use(*self, read))
            } else {
                None
            }),
    {
        if !is_node_like_category(category) {
            return None;
        }
        match self.cached_options {
            Some(options) => Some(options),
            None => Some(read),
        }
    }

    /// After an import: the options for the whole scene, which are not kept any longer.
    pub fn post_process(&mut self, read: PreviewImportOptions) -> (options: PreviewImportOptions)
        ensures
            options == options_in_use(*old(self), read),
            final(self).cached_options is None,
    {
        let options: PreviewImportOptions = match self.cached_options {
            Some(options) => options,
            None => read,
        };
        self.cached_options = None;
        options
    }
}

/// The dialog and the saved file give the same options where they hold the same values.
pub proof fn both_imports_agree(params: Seq<Entry>)
    requires
        int_param(params, OPTION_PREVIEW_MAX_SPLATS@) is Some,
        float_param(params, OPTION_PREVIEW_MAX_SPLAT_RADIUS@) is Some,
        float_param(params, OPTION_PREVIEW_SCALE_MULTIPLIER@) is Some,
        lookup(params, SUBRESOURCES_KEY@) is Some,
    ensures
        saved_options(params) == merged(
            dialog_options(
                lookup(params, OPTION_PREVIEW_MAX_SPLATS@)->0,
                lookup(params, OPTION_PREVIEW_MAX_SPLAT_RADIUS@)->0,
                lookup(params, OPTION_PREVIEW_SCALE_MULTIPLIER@)->0,
            ),
            lookup(params, SUBRESOURCES_KEY@)->0,
        ),
{
}

} // verus!
