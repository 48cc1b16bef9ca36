//! Which render pipeline draws a cloud.

use crate::import_state::ImportedSplatMetadata;
use crate::text::text_eq;
use crate::variant::{with_entry, Dictionary, Entry, Value, Variant};
use vstd::prelude::*;
use vstd::string::*;

verus! {

/// The pipeline follows from the target.
pub const BACKEND_PROFILE_AUTOMATIC: &'static str = "automatic";

/// Desktop machines.
pub const BACKEND_PROFILE_DESKTOP: &'static str = "desktop";

/// Mobile devices.
pub const BACKEND_PROFILE_MOBILE: &'static str = "mobile";

/// Headsets.
pub const BACKEND_PROFILE_VR_SAFE: &'static str = "vr_safe";

/// Desktop, small clouds.
pub const PIPELINE_DESKTOP_DIRECT: &'static str = "desktop_direct";

/// Desktop, large clouds.
pub const PIPELINE_DESKTOP_CLUSTERED: &'static str = "desktop_clustered";

/// Mobile.
pub const PIPELINE_MOBILE_DIRECT: &'static str = "mobile_direct";

/// Headsets.
pub const PIPELINE_VR_SAFE_SPATIAL: &'static str = "vr_safe_spatial";

/// Desktop, large clouds, with the compositor.
pub const PIPELINE_DESKTOP_COMPOSITOR: &'static str = "desktop_compositor";

/// One order for both eyes.
pub const VR_VIEW_BASIS_HEAD_CENTER: &'static str = "head_center";

/// An order for each eye.
pub const VR_VIEW_BASIS_PER_EYE: &'static str = "per_eye";

/// The depth of a splat is that of its peak along each ray.
pub const SPLAT_DEPTH_MODE_RAY: &'static str = "ray";

/// The depth of a splat is that of its center.
pub const SPLAT_DEPTH_MODE_CENTER: &'static str = "center";

/// The points from which on a desktop cloud is a large one.
pub const DESKTOP_CLUSTER_THRESHOLD: i32 = 200_000;

/// The points that a mobile device is given.
pub const MOBILE_POINT_BUDGET: i32 = 131_072;

/// The points that a headset is given.
pub const VR_POINT_BUDGET: i32 = 262_144;

/// The settings of the backend.
#[derive(Debug)]
pub struct GaussianSplatBackendSettings {
    pub profile: String,
    pub target_hint: String,
    pub allow_compositor: bool,
    pub desktop_cluster_threshold: i32,
    pub mobile_point_budget: i32,
    pub vr_point_budget: i32,
    /// Headsets get an order for each eye.
    pub per_eye: bool,
    /// Splats have the depth of their center.
    pub center_depth: bool,
}

/// The contents of the settings.
#[verifier::ext_equal]
pub ghost struct BackendView {
    pub profile: Seq<char>,
    pub target_hint: Seq<char>,
    pub allow_compositor: bool,
    pub desktop_cluster_threshold: i32,
    pub mobile_point_budget: i32,
    pub vr_point_budget: i32,
    pub per_eye: bool,
    pub center_depth: bool,
}

impl View for GaussianSplatBackendSettings {
    type V = BackendView;

    open spec fn view(&self) -> BackendView {
        BackendView {
            profile: self.profile@,
            target_hint: self.target_hint@,
            allow_compositor: self.allow_compositor,
            desktop_cluster_threshold: self.desktop_cluster_threshold,
            mobile_point_budget: self.mobile_point_budget,
            vr_point_budget: self.vr_point_budget,
            per_eye: self.per_eye,
            center_depth: self.center_depth,
        }
    }
}

/// The settings at the start.
pub open spec fn default_backend() -> BackendView {
    BackendView {
        profile: BACKEND_PROFILE_AUTOMATIC@,
        target_hint: BACKEND_PROFILE_DESKTOP@,
        allow_compositor: false,
        desktop_cluster_threshold: DESKTOP_CLUSTER_THRESHOLD,
        mobile_point_budget: MOBILE_POINT_BUDGET,
        vr_point_budget: VR_POINT_BUDGET,
        per_eye: false,
        center_depth: false,
    }
}

/// The name of the view basis.
pub open spec fn view_basis_name(per_eye: bool) -> Seq<char> {
    if per_eye {
        VR_VIEW_BASIS_PER_EYE@
    } else {
        VR_VIEW_BASIS_HEAD_CENTER@
    }
}

/// The name of the depth mode.
pub open spec fn depth_mode_name(center_depth: bool) -> Seq<char> {
    if center_depth {
        SPLAT_DEPTH_MODE_CENTER@
    } else {
        SPLAT_DEPTH_MODE_RAY@
    }
}

/// The pipeline of a desktop: large clouds are clustered, or go to the compositor if that is
/// allowed.
pub open spec fn desktop_choice(settings: BackendView, point_count: i32) -> Seq<char> {
    if point_count < settings.desktop_cluster_threshold {
        PIPELINE_DESKTOP_DIRECT@
    } else if settings.allow_compositor {
        PIPELINE_DESKTOP_COMPOSITOR@
    } else {
        PIPELINE_DESKTOP_CLUSTERED@
    }
}

/// The pipeline: what the profile says, and where it says nothing, what the target says.
pub open spec fn pipeline_choice(settings: BackendView, point_count: i32) -> Seq<char> {
    if settings.profile == BACKEND_PROFILE_DESKTOP@ {
        desktop_choice(settings, point_count)
    } else if settings.profile == BACKEND_PROFILE_MOBILE@ {
        PIPELINE_MOBILE_DIRECT@
    } else if settings.profile == BACKEND_PROFILE_VR_SAFE@ {
        PIPELINE_VR_SAFE_SPATIAL@
    } else if settings.target_hint == BACKEND_PROFILE_VR_SAFE@ {
        PIPELINE_VR_SAFE_SPATIAL@
    } else if settings.target_hint == BACKEND_PROFILE_MOBILE@ {
        PIPELINE_MOBILE_DIRECT@
    } else {
        desktop_choice(settings, point_count)
    }
}

/// The entries that describe the settings.
pub open spec fn backend_entries(settings: BackendView) -> Seq<Entry> {
    let e1 = with_entry(Seq::empty(), "profile"@, Value::Text(settings.profile));
    let e2 = with_entry(e1, "target_hint"@, Value::Text(settings.target_hint));
    let e3 = with_entry(e2, "allow_compositor"@, Value::Bool(settings.allow_compositor));
    let e4 = with_entry(
        e3,
        "desktop_cluster_threshold"@,
        Value::Int(settings.desktop_cluster_threshold as i64),
    );
    let e5 = with_entry(
        e4,
        "mobile_point_budget"@,
        Value::Int(settings.mobile_point_budget as i64),
    );
    with_entry(e5, "vr_point_budget"@, Value::Int(settings.vr_point_budget as i64))
}

impl Default for GaussianSplatBackendSettings {
    fn default() -> (settings: GaussianSplatBackendSettings)
        ensures
            settings@ == default_backend(),
    {
        GaussianSplatBackendSettings {
            profile: BACKEND_PROFILE_AUTOMATIC.to_owned(),
            target_hint: BACKEND_PROFILE_DESKTOP.to_owned(),
            allow_compositor: false,
            desktop_cluster_threshold: DESKTOP_CLUSTER_THRESHOLD,
            mobile_point_budget: MOBILE_POINT_BUDGET,
            vr_point_budget: VR_POINT_BUDGET,
            per_eye: false,
            center_depth: false,
        }
    }
}

impl GaussianSplatBackendSettings {
    /// A copy.
    pub fn duplicate(&self) -> (copy: GaussianSplatBackendSettings)
        ensures
            copy@ == self@,
    {
        GaussianSplatBackendSettings {
            profile: self.profile.clone(),
            target_hint: self.target_hint.clone(),
            allow_compositor: self.allow_compositor,
            desktop_cluster_threshold: self.desktop_cluster_threshold,
            mobile_point_budget: self.mobile_point_budget,
            vr_point_budget: self.vr_point_budget,
            per_eye: self.per_eye,
            center_depth: self.center_depth,
        }
    }

    /// The profile.
    pub fn get_profile(&self) -> (profile: String)
        ensures
            profile@ == self@.profile,
    {
        self.profile.clone()
    }

    /// Sets the profile.
    pub fn set_profile(&mut self, profile: &str)
        ensures
            final(self)@ == (BackendView { profile: profile@, ..old(self)@ }),
    {
        self.profile = profile.to_owned();
    }

    /// The target.
    pub fn get_target_hint(&self) -> (target_hint: String)
        ensures
            target_hint@ == self@.target_hint,
    {
        self.target_hint.clone()
    }

    /// Sets the target.
    pub fn set_target_hint(&mut self, target_hint: &str)
        ensures
            final(self)@ == (BackendView { target_hint: target_hint@, ..old(self)@ }),
    {
        self.target_hint = target_hint.to_owned();
    }

    /// Whether the compositor may be used.
    pub fn is_compositor_allowed(&self) -> (allowed: bool)
        ensures
            allowed == self@.allow_compositor,
    {
        self.allow_compositor
    }

    /// Sets whether the compositor may be used.
    pub fn set_allow_compositor(&mut self, allow_compositor: bool)
        ensures
            final(self)@ == (BackendView { allow_compositor, ..old(self)@ }),
    {
        self.allow_compositor = allow_compositor;
    }

    /// The name of the view basis.
    pub fn get_vr_view_basis(&self) -> (name: &'static str)
        ensures
            name@ == view_basis_name(self@.per_eye),
    {
        if self.per_eye {
            VR_VIEW_BASIS_PER_EYE
        } else {
            VR_VIEW_BASIS_HEAD_CENTER
        }
    }

    /// Sets the view basis by name; an unknown name is that of one order for both eyes.
    pub fn set_vr_view_basis(&mut self, name: &str)
        ensures
            final(self)@ == (BackendView {
                per_eye: name@ == VR_VIEW_BASIS_PER_EYE@,
                ..old(self)@
            }),
    {
        self.per_eye = text_eq(name, VR_VIEW_BASIS_PER_EYE);
    }

    /// The name of the depth mode.
    pub fn get_splat_depth_mode(&self) -> (name: &'static str)
        ensures
            name@ == depth_mode_name(self@.center_depth),
    {
        if self.center_depth {
            SPLAT_DEPTH_MODE_CENTER
        } else {
            SPLAT_DEPTH_MODE_RAY
        }
    }

    /// Sets the depth mode by name; an unknown name is that of the depth along each ray.
    pub fn set_splat_depth_mode(&mut self, name: &str)
        ensures
            final(self)@ == (BackendView {
                center_depth: name@ == SPLAT_DEPTH_MODE_CENTER@,
                ..old(self)@
            }),
    {
        self.center_depth = text_eq(name, SPLAT_DEPTH_MODE_CENTER);
    }

    /// What the shader is told about the depth mode: one for the depth of the center, else zero.
    pub fn splat_depth_mode_uniform(&self) -> (uniform: i32)
        ensures
            uniform == (if self@.center_depth {
                1i32
            } else {
                0
            }),
    {
        if self.center_depth {
            1
        } else {
            0
        }
    }

    /// The pipeline for the cloud that a dictionary describes.
    pub fn resolve_pipeline(&self, metadata: Dictionary) -> (pipeline: String)
        ensures
            pipeline@ == pipeline_choice(
                self@,
                crate::import_state::dictionary_metadata(metadata@).point_count,
            ),
    {
        let metadata: ImportedSplatMetadata = ImportedSplatMetadata::from_dictionary(metadata);
        self.resolve_pipeline_for_metadata(&metadata).to_owned()
    }

    /// The pipeline for a cloud.
    pub fn resolve_pipeline_for_metadata(&self, metadata: &ImportedSplatMetadata) -> (pipeline:
        &'static str)
        ensures
            pipeline@ == pipeline_choice(self@, metadata@.point_count),
    {
        let profile: &str = self.profile.as_str();
        let target_hint: &str = self.target_hint.as_str();
        if text_eq(profile, BACKEND_PROFILE_DESKTOP) {
            self.desktop_pipeline(metadata)
        } else if text_eq(profile, BACKEND_PROFILE_MOBILE) {
            PIPELINE_MOBILE_DIRECT
        } else if text_eq(profile, BACKEND_PROFILE_VR_SAFE) {
            PIPELINE_VR_SAFE_SPATIAL
        } else if text_eq(target_hint, BACKEND_PROFILE_VR_SAFE) {
            PIPELINE_VR_SAFE_SPATIAL
        } else if text_eq(target_hint, BACKEND_PROFILE_MOBILE) {
            PIPELINE_MOBILE_DIRECT
        } else {
            self.desktop_pipeline(metadata)
        }
    }

    /// The pipeline of a desktop.
    fn desktop_pipeline(&self, metadata: &ImportedSplatMetadata) -> (pipeline: &'static str)
        ensures
            pipeline@ == desktop_choice(self@, metadata@.point_count),
    {
        if metadata.point_count < self.desktop_cluster_threshold {
            PIPELINE_DESKTOP_DIRECT
        } else if self.allow_compositor {
            PIPELINE_DESKTOP_COMPOSITOR
        } else {
            PIPELINE_DESKTOP_CLUSTERED
        }
    }

    /// A dictionary that describes the settings.
    pub fn export_settings(&self) -> (dict: Dictionary)
        ensures
            dict@ == backend_entries(self@),
    {
        let mut dict = Dictionary::new();
        dict.set("profile", Variant::Text(self.profile.clone()));
        dict.set("target_hint", Variant::Text(self.target_hint.clone()));
        dict.set("allow_compositor", Variant::Bool(self.allow_compositor));
        dict.set(
            "desktop_cluster_threshold",
            Variant::Int(self.desktop_cluster_threshold as i64),
        );
        dict.set("mobile_point_budget", Variant::Int(self.mobile_point_budget as i64));
        dict.set("vr_point_budget", Variant::Int(self.vr_point_budget as i64));
        dict
    }

    /// Settings for a desktop.
    pub fn apply_desktop_defaults(&mut self)
        ensures
            final(self)@ == (BackendView {
                profile: BACKEND_PROFILE_AUTOMATIC@,
                target_hint: BACKEND_PROFILE_DESKTOP@,
                allow_compositor: false,
                ..old(self)@
            }),
    {
        self.profile = BACKEND_PROFILE_AUTOMATIC.to_owned();
        self.target_hint = BACKEND_PROFILE_DESKTOP.to_owned();
        self.allow_compositor = false;
    }

    /// Settings for a mobile device.
    pub fn apply_mobile_defaults(&mut self)
        ensures
            final(self)@ == (BackendView {
                profile: BACKEND_PROFILE_MOBILE@,
                target_hint: BACKEND_PROFILE_MOBILE@,
                allow_compositor: false,
                ..old(self)@
            }),
    {
        self.profile = BACKEND_PROFILE_MOBILE.to_owned();
        self.target_hint = BACKEND_PROFILE_MOBILE.to_owned();
        self.allow_compositor = false;
    }

    /// Settings for a headset.
    pub fn apply_vr_safe_defaults(&mut self)
        ensures
            final(self)@ == (BackendView {
                profile: BACKEND_PROFILE_VR_SAFE@,
                target_hint: BACKEND_PROFILE_VR_SAFE@,
                allow_compositor: false,
                ..old(self)@
            }),
    {
        self.profile = BACKEND_PROFILE_VR_SAFE.to_owned();
        self.target_hint = BACKEND_PROFILE_VR_SAFE.to_owned();
        self.allow_compositor = false;
    }
}

/// Each set of defaults leads to the pipeline of its kind of device.
pub proof fn defaults_choose_their_pipeline(settings: BackendView, point_count: i32)
    ensures
        pipeline_choice(
            BackendView {
                profile: BACKEND_PROFILE_AUTOMATIC@,
                target_hint: BACKEND_PROFILE_DESKTOP@,
                ..settings
            },
            point_count,
        ) == desktop_choice(settings, point_count),
        pipeline_choice(
            BackendView { profile: BACKEND_PROFILE_MOBILE@, ..settings },
            point_count,
        ) == PIPELINE_MOBILE_DIRECT@,
        pipeline_choice(
            BackendView { profile: BACKEND_PROFILE_VR_SAFE@, ..settings },
            point_count,
        ) == PIPELINE_VR_SAFE_SPATIAL@,
{
    reveal_strlit("automatic");
    reveal_strlit("desktop");
    reveal_strlit("mobile");
    reveal_strlit("vr_safe");
    assert("automatic"@[0] == 'a');
    assert("desktop"@[0] == 'd');
    assert("mobile"@[0] == 'm');
    assert("vr_safe"@[0] == 'v');
}

} // verus!
