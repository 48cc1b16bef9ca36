//! Render profiles: presets of what a cloud may cost.

use crate::backend::{
    BACKEND_PROFILE_DESKTOP, BACKEND_PROFILE_MOBILE, BACKEND_PROFILE_VR_SAFE,
    SPLAT_DEPTH_MODE_CENTER, SPLAT_DEPTH_MODE_RAY, VR_VIEW_BASIS_HEAD_CENTER,
};
use crate::floats::F32;
use crate::variant::{
    dict_i32, dict_string, int_under, optional_text, text_under, with_entry, Dictionary, Entry,
    Value, Variant,
};
use vstd::prelude::*;
use vstd::string::*;

verus! {

/// The splats of the low profile.
pub const RENDER_PROFILE_LOW_SPLATS: i32 = 150_000;

/// The splats of the middle profile.
pub const RENDER_PROFILE_MIDDLE_SPLATS: i32 = 500_000;

/// The splats of the high profile: all of them.
pub const RENDER_PROFILE_HIGH_SPLATS: i32 = i32::MAX;

/// The degree of the low profile.
pub const RENDER_PROFILE_LOW_SH_DEGREE: i32 = 0;

/// The degree of the middle profile.
pub const RENDER_PROFILE_MIDDLE_SH_DEGREE: i32 = 1;

/// The degree of the high profile.
pub const RENDER_PROFILE_HIGH_SH_DEGREE: i32 = 3;

/// The degree of the headset profile.
pub const RENDER_PROFILE_XR_SH_DEGREE: i32 = 1;

/// The budget that follows from the extent of the cloud.
pub const ADAPTIVE_BUDGET: i32 = -1;

/// The adaptive budget of a small cloud.
pub const XR_ADAPTIVE_MIN_SPLATS: i32 = 300_000;

/// The adaptive budget of a large cloud.
pub const XR_ADAPTIVE_MAX_SPLATS: i32 = 800_000;

/// Two units, the extent of a small cloud.
pub const XR_ADAPTIVE_MIN_EXTENT_BITS: u32 = 0x4000_0000;

/// Thirty units, the extent of a large cloud.
pub const XR_ADAPTIVE_MAX_EXTENT_BITS: u32 = 0x41f0_0000;

/// A preset, or none.
#[derive(Clone, Copy, Debug, PartialEq, Eq, Structural)]
pub enum RenderProfile {
    Custom,
    Low,
    Middle,
    High,
    Xr,
}

/// The number that a profile is known by.
pub open spec fn profile_index(profile: RenderProfile) -> i64 {
    match profile {
        RenderProfile::Custom => 0,
        RenderProfile::Low => 1,
        RenderProfile::Middle => 2,
        RenderProfile::High => 3,
        RenderProfile::Xr => 4,
    }
}

/// What a profile settles.
#[derive(Clone, Copy, Debug)]
pub struct ProfileSettings {
    pub target_hint: &'static str,
    pub budget: i32,
    pub sh_degree: i32,
    pub vr_view_basis: &'static str,
    pub splat_depth_mode: &'static str,
}

/// What a profile settles.
#[verifier::ext_equal]
pub ghost struct ProfileView {
    pub target_hint: Seq<char>,
    pub budget: i32,
    pub sh_degree: i32,
    pub vr_view_basis: Seq<char>,
    pub splat_depth_mode: Seq<char>,
}

impl View for ProfileSettings {
    type V = ProfileView;

    open spec fn view(&self) -> ProfileView {
        ProfileView {
            target_hint: self.target_hint@,
            budget: self.budget,
            sh_degree: self.sh_degree,
            vr_view_basis: self.vr_view_basis@,
            splat_depth_mode: self.splat_depth_mode@,
        }
    }
}

/// What a preset settles. Every preset has one order for both eyes.
pub open spec fn preset(profile: RenderProfile) -> Option<ProfileView> {
    let base = ProfileView {
        target_hint: BACKEND_PROFILE_VR_SAFE@,
        budget: RENDER_PROFILE_LOW_SPLATS,
        sh_degree: RENDER_PROFILE_LOW_SH_DEGREE,
        vr_view_basis: VR_VIEW_BASIS_HEAD_CENTER@,
        splat_depth_mode: SPLAT_DEPTH_MODE_RAY@,
    };
    match profile {
        RenderProfile::Custom => None,
        RenderProfile::Low => Some(base),
        RenderProfile::Middle => Some(
            ProfileView {
                target_hint: BACKEND_PROFILE_MOBILE@,
                budget: RENDER_PROFILE_MIDDLE_SPLATS,
                sh_degree: RENDER_PROFILE_MIDDLE_SH_DEGREE,
                ..base
            },
        ),
        RenderProfile::High => Some(
            ProfileView {
                target_hint: BACKEND_PROFILE_DESKTOP@,
                budget: RENDER_PROFILE_HIGH_SPLATS,
                sh_degree: RENDER_PROFILE_HIGH_SH_DEGREE,
                ..base
            },
        ),
        RenderProfile::Xr => Some(
            ProfileView {
                budget: ADAPTIVE_BUDGET,
                sh_degree: RENDER_PROFILE_XR_SH_DEGREE,
                splat_depth_mode: SPLAT_DEPTH_MODE_CENTER@,
                ..base
            },
        ),
    }
}

impl RenderProfile {
    /// The number that the profile is known by.
    pub fn to_index(self) -> (index: i64)
        ensures
            index == profile_index(self),
    {
        match self {
            RenderProfile::Custom => 0,
            RenderProfile::Low => 1,
            RenderProfile::Middle => 2,
            RenderProfile::High => 3,
            RenderProfile::Xr => 4,
        }
    }

    /// The profile with the given number.
    pub fn from_index(index: i64) -> (profile: Option<RenderProfile>)
        ensures
            match profile {
                Some(profile) => profile_index(profile) == index,
                None => forall|p: RenderProfile| #[trigger] profile_index(p) != index,
            },
    {
        if index == 0 {
            Some(RenderProfile::Custom)
        } else if index == 1 {
            Some(RenderProfile::Low)
        } else if index == 2 {
            Some(RenderProfile::Middle)
        } else if index == 3 {
            Some(RenderProfile::High)
        } else if index == 4 {
            Some(RenderProfile::Xr)
        } else {
            None
        }
    }

    /// What the preset settles.
    pub fn settings(self) -> (settings: Option<ProfileSettings>)
        ensures
            match settings {
                Some(settings) => preset(self) == Some(settings@),
                None => preset(self) is None,
            },
    {
        let base = ProfileSettings {
            target_hint: BACKEND_PROFILE_VR_SAFE,
            budget: RENDER_PROFILE_LOW_SPLATS,
            sh_degree: RENDER_PROFILE_LOW_SH_DEGREE,
            vr_view_basis: VR_VIEW_BASIS_HEAD_CENTER,
            splat_depth_mode: SPLAT_DEPTH_MODE_RAY,
        };
        match self {
            RenderProfile::Custom => None,
            RenderProfile::Low => Some(base),
            RenderProfile::Middle => Some(
                ProfileSettings {
                    target_hint: BACKEND_PROFILE_MOBILE,
                    budget: RENDER_PROFILE_MIDDLE_SPLATS,
                    sh_degree: RENDER_PROFILE_MIDDLE_SH_DEGREE,
                    ..base
                },
            ),
            RenderProfile::High => Some(
                ProfileSettings {
                    target_hint: BACKEND_PROFILE_DESKTOP,
                    budget: RENDER_PROFILE_HIGH_SPLATS,
                    sh_degree: RENDER_PROFILE_HIGH_SH_DEGREE,
                    ..base
                },
            ),
            RenderProfile::Xr => Some(
                ProfileSettings {
                    budget: ADAPTIVE_BUDGET,
                    sh_degree: RENDER_PROFILE_XR_SH_DEGREE,
                    splat_depth_mode: SPLAT_DEPTH_MODE_CENTER,
                    ..base
                },
            ),
        }
    }
}

/// The entries of the dictionary of settings.
pub open spec fn profile_entries(settings: ProfileView) -> Seq<Entry> {
    let e1 = with_entry(Seq::empty(), "target_hint"@, Value::Text(settings.target_hint));
    let e2 = with_entry(e1, "budget"@, Value::Int(settings.budget as i64));
    let e3 = with_entry(e2, "sh_degree"@, Value::Int(settings.sh_degree as i64));
    let e4 = with_entry(e3, "vr_view_basis"@, Value::Text(settings.vr_view_basis));
    with_entry(e4, "splat_depth_mode"@, Value::Text(settings.splat_depth_mode))
}

/// The dictionary of settings.
pub fn profile_dictionary(
    target_hint: &str,
    budget: i32,
    sh_degree: i32,
    vr_view_basis: &str,
    splat_depth_mode: &str,
) -> (dict: Dictionary)
    ensures
        dict@ == profile_entries(
            ProfileView {
                target_hint: target_hint@,
                budget,
                sh_degree,
                vr_view_basis: vr_view_basis@,
                splat_depth_mode: splat_depth_mode@,
            },
        ),
{
    let mut dict = Dictionary::new();
    dict.set("target_hint", Variant::Text(target_hint.to_owned()));
    dict.set("budget", Variant::Int(budget as i64));
    dict.set("sh_degree", Variant::Int(sh_degree as i64));
    dict.set("vr_view_basis", Variant::Text(vr_view_basis.to_owned()));
    dict.set("splat_depth_mode", Variant::Text(splat_depth_mode.to_owned()));
    dict
}

/// The settings that a dictionary gives; one that it does not give stays as it is.
#[derive(Debug)]
pub struct ProfileOverrides {
    pub target_hint: Option<String>,
    pub budget: Option<i32>,
    pub sh_degree: Option<i32>,
    pub vr_view_basis: Option<String>,
    pub splat_depth_mode: Option<String>,
}

/// The settings that a dictionary gives.
#[verifier::ext_equal]
pub ghost struct OverridesView {
    pub target_hint: Option<Seq<char>>,
    pub budget: Option<i32>,
    pub sh_degree: Option<i32>,
    pub vr_view_basis: Option<Seq<char>>,
    pub splat_depth_mode: Option<Seq<char>>,
}

impl View for ProfileOverrides {
    type V = OverridesView;

    open spec fn view(&self) -> OverridesView {
        OverridesView {
            target_hint: optional_text(self.target_hint),
            budget: self.budget,
            sh_degree: self.sh_degree,
            vr_view_basis: optional_text(self.vr_view_basis),
            splat_depth_mode: optional_text(self.splat_depth_mode),
        }
    }
}

/// The settings that a dictionary gives.
pub open spec fn given_settings(entries: Seq<Entry>) -> OverridesView {
    OverridesView {
        target_hint: text_under(entries, "target_hint"@),
        budget: int_under(entries, "budget"@),
        sh_degree: int_under(entries, "sh_degree"@),
        vr_view_basis: text_under(entries, "vr_view_basis"@),
        splat_depth_mode: text_under(entries, "splat_depth_mode"@),
    }
}

impl ProfileOverrides {
    /// The settings that a dictionary gives.
    pub fn from_dictionary(dict: &Dictionary) -> (overrides: ProfileOverrides)
        ensures
            overrides@ == given_settings(dict@),
    {
        ProfileOverrides {
            target_hint: dict_string(dict, "target_hint"),
            budget: dict_i32(dict, "budget"),
            sh_degree: dict_i32(dict, "sh_degree"),
            vr_view_basis: dict_string(dict, "vr_view_basis"),
            splat_depth_mode: dict_string(dict, "splat_depth_mode"),
        }
    }
}

/// The dictionary of a profile gives all that the profile settles.
pub proof fn profile_dictionary_gives_everything(settings: ProfileView)
    ensures
        given_settings(profile_entries(settings)) == (OverridesView {
            target_hint: Some(settings.target_hint),
            budget: Some(settings.budget),
            sh_degree: Some(settings.sh_degree),
            vr_view_basis: Some(settings.vr_view_basis),
            splat_depth_mode: Some(settings.splat_depth_mode),
        }),
{
    reveal_strlit("target_hint");
    reveal_strlit("budget");
    reveal_strlit("sh_degree");
    reveal_strlit("vr_view_basis");
    reveal_strlit("splat_depth_mode");
    assert("target_hint"@.len() == 11 && "budget"@.len() == 6 && "sh_degree"@.len() == 9);
    assert("vr_view_basis"@.len() == 13 && "splat_depth_mode"@.len() == 16);
    lemma_profile_lookup(settings, "target_hint"@);
    lemma_profile_lookup(settings, "budget"@);
    lemma_profile_lookup(settings, "sh_degree"@);
    lemma_profile_lookup(settings, "vr_view_basis"@);
    lemma_profile_lookup(settings, "splat_depth_mode"@);
}

/// What a lookup gives in the dictionary of settings, for any of its keys.
proof fn lemma_profile_lookup(settings: ProfileView, key: Seq<char>)
    ensures
        crate::variant::lookup(profile_entries(settings), key) == (if key
            == "splat_depth_mode"@ {
            Some(Value::Text(settings.splat_depth_mode))
        } else if key == "vr_view_basis"@ {
            Some(Value::Text(settings.vr_view_basis))
        } else if key == "sh_degree"@ {
            Some(Value::Int(settings.sh_degree as i64))
        } else if key == "budget"@ {
            Some(Value::Int(settings.budget as i64))
        } else if key == "target_hint"@ {
            Some(Value::Text(settings.target_hint))
        } else {
            None
        }),
{
    let e1 = with_entry(Seq::empty(), "target_hint"@, Value::Text(settings.target_hint));
    let e2 = with_entry(e1, "budget"@, Value::Int(settings.budget as i64));
    let e3 = with_entry(e2, "sh_degree"@, Value::Int(settings.sh_degree as i64));
    let e4 = with_entry(e3, "vr_view_basis"@, Value::Text(settings.vr_view_basis));
    crate::variant::lookup_after_set(
        Seq::empty(),
        "target_hint"@,
        Value::Text(settings.target_hint),
        key,
    );
    crate::variant::lookup_after_set(e1, "budget"@, Value::Int(settings.budget as i64), key);
    crate::variant::lookup_after_set(e2, "sh_degree"@, Value::Int(settings.sh_degree as i64), key);
    crate::variant::lookup_after_set(e3, "vr_view_basis"@, Value::Text(settings.vr_view_basis), key);
    crate::variant::lookup_after_set(
        e4,
        "splat_depth_mode"@,
        Value::Text(settings.splat_depth_mode),
        key,
    );
}

/// The adaptive budget of a cloud: the smallest up to the extent of a small cloud, the largest from
/// that of a large cloud on, and between them what was interpolated, kept between the two.
pub open spec fn adaptive_budget(extent: F32, interpolated: i32) -> i32 {
    if extent.at_most(F32 { bits: XR_ADAPTIVE_MIN_EXTENT_BITS }) {
        XR_ADAPTIVE_MIN_SPLATS
    } else if (F32 { bits: XR_ADAPTIVE_MAX_EXTENT_BITS }).at_most(extent) {
        XR_ADAPTIVE_MAX_SPLATS
    } else if interpolated < XR_ADAPTIVE_MIN_SPLATS {
        XR_ADAPTIVE_MIN_SPLATS
    } else if interpolated > XR_ADAPTIVE_MAX_SPLATS {
        XR_ADAPTIVE_MAX_SPLATS
    } else {
        interpolated
    }
}

/// The adaptive budget of a cloud.
pub fn xr_adaptive_budget(extent: F32, interpolated: i32) -> (budget: i32)
    ensures
        budget == adaptive_budget(extent, interpolated),
        XR_ADAPTIVE_MIN_SPLATS <= budget <= XR_ADAPTIVE_MAX_SPLATS,
{
    if extent.le(F32 { bits: XR_ADAPTIVE_MIN_EXTENT_BITS }) {
        XR_ADAPTIVE_MIN_SPLATS
    } else if (F32 { bits: XR_ADAPTIVE_MAX_EXTENT_BITS }).le(extent) {
        XR_ADAPTIVE_MAX_SPLATS
    } else if interpolated < XR_ADAPTIVE_MIN_SPLATS {
        XR_ADAPTIVE_MIN_SPLATS
    } else if interpolated > XR_ADAPTIVE_MAX_SPLATS {
        XR_ADAPTIVE_MAX_SPLATS
    } else {
        interpolated
    }
}

} // verus!
