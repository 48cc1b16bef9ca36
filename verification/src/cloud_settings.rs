//! How one cloud is shown.

use crate::floats::{F32, ONE_BITS, ZERO_BITS};
use crate::text::text_eq;
use vstd::prelude::*;
use vstd::string::*;

verus! {

/// Fills the budget with the chunks closest to the camera.
pub const CHUNK_SELECTION_NEAREST: &'static str = "nearest";

/// Spreads the budget across all chunks.
pub const CHUNK_SELECTION_COVERAGE: &'static str = "coverage";

/// Keeps a wide view cone represented, and lowers the density at its edges.
pub const CHUNK_SELECTION_VIEW_PRIORITY: &'static str = "view_priority";

/// 200 degrees.
pub const DEFAULT_VIEW_PRIORITY_FOV_DEGREES_BITS: u32 = 0x4348_0000;

/// Five units.
pub const DEFAULT_VIEW_PRIORITY_FULL_DISTANCE_BITS: u32 = 0x40a0_0000;

/// The splat budget of the streaming selection.
pub const DEFAULT_VIEW_PRIORITY_TARGET_BUDGET: i32 = 800_000;

/// The smallest prefix that a selected chunk keeps.
pub const DEFAULT_VIEW_PRIORITY_MIN_LOD_PER_CHUNK: i32 = 256;

/// The fixed splat budget for headsets.
pub const DEFAULT_XR_FIXED_SPLAT_BUDGET: i32 = 600_000;

/// 0.02, the radius that previewed splats are limited to.
pub const DEFAULT_MAX_PREVIEW_SPLAT_RADIUS_BITS: u32 = 0x3ca3_d70a;

/// 0.001, the smallest such radius.
pub const MIN_PREVIEW_SPLAT_RADIUS_BITS: u32 = 0x3a83_126f;

/// 0.01, the smallest scale.
pub const MIN_SCALE_MULTIPLIER_BITS: u32 = 0x3c23_d70a;

/// 360 degrees.
pub const MAX_FOV_DEGREES_BITS: u32 = 0x43b4_0000;

/// How the active chunks of a cloud are chosen.
#[derive(Clone, Copy, Debug, PartialEq, Eq, Structural)]
pub enum ChunkSelection {
    Nearest,
    Coverage,
    ViewPriority,
}

/// The name of a way to choose.
pub open spec fn selection_name(selection: ChunkSelection) -> Seq<char> {
    match selection {
        ChunkSelection::Nearest => CHUNK_SELECTION_NEAREST@,
        ChunkSelection::Coverage => CHUNK_SELECTION_COVERAGE@,
        ChunkSelection::ViewPriority => CHUNK_SELECTION_VIEW_PRIORITY@,
    }
}

/// The way to choose that a name stands for; a name without one stands for the nearest chunks.
pub open spec fn named_selection(name: Seq<char>) -> ChunkSelection {
    if name == CHUNK_SELECTION_COVERAGE@ {
        ChunkSelection::Coverage
    } else if name == CHUNK_SELECTION_VIEW_PRIORITY@ {
        ChunkSelection::ViewPriority
    } else {
        ChunkSelection::Nearest
    }
}

/// Reading the name of a way to choose gives it back.
pub proof fn selection_names_round_trip(selection: ChunkSelection)
    ensures
        named_selection(selection_name(selection)) == selection,
{
    reveal_strlit("nearest");
    reveal_strlit("coverage");
    reveal_strlit("view_priority");
    assert("nearest"@[0] == 'n');
    assert("coverage"@[0] == 'c');
    assert("view_priority"@[0] == 'v');
}

/// The way to choose that a name stands for.
pub fn normalize_chunk_selection(name: &str) -> (selection: ChunkSelection)
    ensures
        selection == named_selection(name@),
{
    if text_eq(name, CHUNK_SELECTION_COVERAGE) {
        ChunkSelection::Coverage
    } else if text_eq(name, CHUNK_SELECTION_VIEW_PRIORITY) {
        ChunkSelection::ViewPriority
    } else {
        ChunkSelection::Nearest
    }
}

impl ChunkSelection {
    /// The name of a way to choose.
    pub fn name(self) -> (name: &'static str)
        ensures
            name@ == selection_name(self),
    {
        match self {
            ChunkSelection::Nearest => CHUNK_SELECTION_NEAREST,
            ChunkSelection::Coverage => CHUNK_SELECTION_COVERAGE,
            ChunkSelection::ViewPriority => CHUNK_SELECTION_VIEW_PRIORITY,
        }
    }
}

/// The settings of one cloud.
#[derive(Clone, Copy, Debug, PartialEq, Eq, Structural)]
pub struct GaussianSplatCloudSettings {
    /// Whether the splats are drawn.
    pub splat_visible: bool,
    /// Whether anything is rendered.
    pub render_enabled: bool,
    /// What the size of every splat is multiplied with.
    pub gaussian_scale_multiplier: F32,
    /// The radius that previewed splats are limited to.
    pub max_preview_splat_radius: F32,
    /// How many splats are shown; the largest number shows them all.
    pub max_preview_splats: i32,
    /// The degree, from 0 to 3, up to which coefficients are evaluated.
    pub sh_degree: i32,
    /// How the active chunks are chosen.
    pub chunk_selection: ChunkSelection,
    /// The width of the view cone.
    pub view_priority_fov_degrees: F32,
    /// The radius within which every chunk is a candidate.
    pub view_priority_full_distance: F32,
    /// The splat budget of the streaming selection.
    pub view_priority_target_budget: i32,
    /// The smallest prefix that a selected chunk keeps.
    pub view_priority_min_lod_per_chunk: i32,
    /// Whether headsets get a fixed splat budget.
    pub xr_fixed_budget_enabled: bool,
    /// The fixed splat budget for headsets.
    pub xr_fixed_splat_budget: i32,
}

/// The settings that a cloud starts with.
pub open spec fn default_settings() -> GaussianSplatCloudSettings {
    GaussianSplatCloudSettings {
        splat_visible: true,
        render_enabled: true,
        gaussian_scale_multiplier: F32 { bits: ONE_BITS },
        max_preview_splat_radius: F32 { bits: DEFAULT_MAX_PREVIEW_SPLAT_RADIUS_BITS },
        max_preview_splats: i32::MAX,
        sh_degree: 3,
        chunk_selection: ChunkSelection::Nearest,
        view_priority_fov_degrees: F32 { bits: DEFAULT_VIEW_PRIORITY_FOV_DEGREES_BITS },
        view_priority_full_distance: F32 { bits: DEFAULT_VIEW_PRIORITY_FULL_DISTANCE_BITS },
        view_priority_target_budget: DEFAULT_VIEW_PRIORITY_TARGET_BUDGET,
        view_priority_min_lod_per_chunk: DEFAULT_VIEW_PRIORITY_MIN_LOD_PER_CHUNK,
        xr_fixed_budget_enabled: false,
        xr_fixed_splat_budget: DEFAULT_XR_FIXED_SPLAT_BUDGET,
    }
}

/// `value` or `limit`, whichever is larger.
pub open spec fn at_least(value: i32, limit: i32) -> i32 {
    if value < limit {
        limit
    } else {
        value
    }
}

/// `degree` moved into the range from 0 to 3.
pub open spec fn degree_within(degree: i32) -> i32 {
    if degree < 0 {
        0
    } else if degree > 3 {
        3
    } else {
        degree
    }
}

/// Whether every setting is in its range.
pub open spec fn in_range(s: GaussianSplatCloudSettings) -> bool {
    &&& F32 { bits: MIN_SCALE_MULTIPLIER_BITS }.at_most(s.gaussian_scale_multiplier)
    &&& F32 { bits: MIN_PREVIEW_SPLAT_RADIUS_BITS }.at_most(s.max_preview_splat_radius)
    &&& 0 <= s.max_preview_splats
    &&& 0 <= s.sh_degree <= 3
    &&& s.view_priority_fov_degrees.nan() || (F32 { bits: ONE_BITS }.at_most(
        s.view_priority_fov_degrees,
    ) && s.view_priority_fov_degrees.at_most(F32 { bits: MAX_FOV_DEGREES_BITS }))
    &&& F32 { bits: ZERO_BITS }.at_most(s.view_priority_full_distance)
    &&& 0 <= s.view_priority_target_budget
    &&& 1 <= s.view_priority_min_lod_per_chunk
    &&& 0 <= s.xr_fixed_splat_budget
}

/// `value` or `limit`, whichever is larger.
pub(crate) fn raise(value: i32, limit: i32) -> (result: i32)
    ensures
        result == at_least(value, limit),
{
    if value < limit {
        limit
    } else {
        value
    }
}

impl Default for GaussianSplatCloudSettings {
    fn default() -> (settings: GaussianSplatCloudSettings)
        ensures
            settings == default_settings(),
            in_range(settings),
    {
        GaussianSplatCloudSettings {
            splat_visible: true,
            render_enabled: true,
            gaussian_scale_multiplier: F32 { bits: ONE_BITS },
            max_preview_splat_radius: F32 { bits: DEFAULT_MAX_PREVIEW_SPLAT_RADIUS_BITS },
            max_preview_splats: i32::MAX,
            sh_degree: 3,
            chunk_selection: ChunkSelection::Nearest,
            view_priority_fov_degrees: F32 { bits: DEFAULT_VIEW_PRIORITY_FOV_DEGREES_BITS },
            view_priority_full_distance: F32 { bits: DEFAULT_VIEW_PRIORITY_FULL_DISTANCE_BITS },
            view_priority_target_budget: DEFAULT_VIEW_PRIORITY_TARGET_BUDGET,
            view_priority_min_lod_per_chunk: DEFAULT_VIEW_PRIORITY_MIN_LOD_PER_CHUNK,
            xr_fixed_budget_enabled: false,
            xr_fixed_splat_budget: DEFAULT_XR_FIXED_SPLAT_BUDGET,
        }
    }
}

impl GaussianSplatCloudSettings {
    /// Whether the splats are drawn.
    pub fn is_splat_visible(&self) -> (value: bool)
        ensures
            value == self.splat_visible,
    {
        self.splat_visible
    }

    /// Sets whether the splats are drawn.
    pub fn set_splat_visible(&mut self, value: bool)
        ensures
            *final(self) == (GaussianSplatCloudSettings {
                splat_visible: value,
                ..*old(self)
            }),
            in_range(*old(self)) ==> in_range(*final(self)),
    {
        self.splat_visible = value;
    }

    /// Whether anything is rendered.
    pub fn is_render_enabled(&self) -> (value: bool)
        ensures
            value == self.render_enabled,
    {
        self.render_enabled
    }

    /// Sets whether anything is rendered.
    pub fn set_render_enabled(&mut self, value: bool)
        ensures
            *final(self) == (GaussianSplatCloudSettings {
                render_enabled: value,
                ..*old(self)
            }),
            in_range(*old(self)) ==> in_range(*final(self)),
    {
        self.render_enabled = value;
    }

    /// What the size of every splat is multiplied with.
    pub fn get_gaussian_scale_multiplier(&self) -> (value: F32)
        ensures
            value == self.gaussian_scale_multiplier,
    {
        self.gaussian_scale_multiplier
    }

    /// Sets what the size of every splat is multiplied with.
    pub fn set_gaussian_scale_multiplier(&mut self, value: F32)
        ensures
            *final(self) == (GaussianSplatCloudSettings {
                gaussian_scale_multiplier: value.larger(F32 { bits: MIN_SCALE_MULTIPLIER_BITS }),
                ..*old(self)
            }),
            in_range(*old(self)) ==> in_range(*final(self)),
    {
        self.gaussian_scale_multiplier = value.max(F32 { bits: MIN_SCALE_MULTIPLIER_BITS });
    }

    /// The radius that previewed splats are limited to.
    pub fn get_max_preview_splat_radius(&self) -> (value: F32)
        ensures
            value == self.max_preview_splat_radius,
    {
        self.max_preview_splat_radius
    }

    /// Sets the radius that previewed splats are limited to.
    pub fn set_max_preview_splat_radius(&mut self, value: F32)
        ensures
            *final(self) == (GaussianSplatCloudSettings {
                max_preview_splat_radius: value.larger(F32 { bits: MIN_PREVIEW_SPLAT_RADIUS_BITS }),
                ..*old(self)
            }),
            in_range(*old(self)) ==> in_range(*final(self)),
    {
        self.max_preview_splat_radius = value.max(F32 { bits: MIN_PREVIEW_SPLAT_RADIUS_BITS });
    }

    /// How many splats are shown; the largest number shows them all.
    pub fn get_max_preview_splats(&self) -> (value: i32)
        ensures
            value == self.max_preview_splats,
    {
        self.max_preview_splats
    }

    /// Sets how many splats are shown; the largest number shows them all.
    pub fn set_max_preview_splats(&mut self, value: i32)
        ensures
            *final(self) == (GaussianSplatCloudSettings {
                max_preview_splats: at_least(value, 0),
                ..*old(self)
            }),
            in_range(*old(self)) ==> in_range(*final(self)),
    {
        self.max_preview_splats = raise(value, 0);
    }

    /// The degree, from 0 to 3, up to which coefficients are evaluated.
    pub fn get_sh_degree(&self) -> (value: i32)
        ensures
            value == self.sh_degree,
    {
        self.sh_degree
    }

    /// Sets the degree, from 0 to 3, up to which coefficients are evaluated.
    pub fn set_sh_degree(&mut self, value: i32)
        ensures
            *final(self) == (GaussianSplatCloudSettings {
                sh_degree: degree_within(value),
                ..*old(self)
            }),
            in_range(*old(self)) ==> in_range(*final(self)),
    {
        self.sh_degree = if value < 0 {
            0
        } else if value > 3 {
            3
        } else {
            value
        };
    }

    /// How the active chunks are chosen.
    pub fn get_chunk_selection(&self) -> (name: &'static str)
        ensures
            name@ == selection_name(self.chunk_selection),
    {
        self.chunk_selection.name()
    }

    /// Sets how the active chunks are chosen, by name.
    pub fn set_chunk_selection(&mut self, name: &str)
        ensures
            *final(self) == (GaussianSplatCloudSettings {
                chunk_selection: named_selection(name@),
                ..*old(self)
            }),
            in_range(*old(self)) ==> in_range(*final(self)),
    {
        self.chunk_selection = normalize_chunk_selection(name);
    }

    /// The width of the view cone.
    pub fn get_view_priority_fov_degrees(&self) -> (value: F32)
        ensures
            value == self.view_priority_fov_degrees,
    {
        self.view_priority_fov_degrees
    }

    /// Sets the width of the view cone.
    pub fn set_view_priority_fov_degrees(&mut self, value: F32)
        ensures
            *final(self) == (GaussianSplatCloudSettings {
                view_priority_fov_degrees: value.within(F32 { bits: ONE_BITS }, F32 { bits: MAX_FOV_DEGREES_BITS }),
                ..*old(self)
            }),
            in_range(*old(self)) ==> in_range(*final(self)),
    {
        self.view_priority_fov_degrees = value.clamp(F32 { bits: ONE_BITS }, F32 { bits: MAX_FOV_DEGREES_BITS });
    }

    /// The radius within which every chunk is a candidate.
    pub fn get_view_priority_full_distance(&self) -> (value: F32)
        ensures
            value == self.view_priority_full_distance,
    {
        self.view_priority_full_distance
    }

    /// Sets the radius within which every chunk is a candidate.
    pub fn set_view_priority_full_distance(&mut self, value: F32)
        ensures
            *final(self) == (GaussianSplatCloudSettings {
                view_priority_full_distance: value.larger(F32 { bits: ZERO_BITS }),
                ..*old(self)
            }),
            in_range(*old(self)) ==> in_range(*final(self)),
    {
        self.view_priority_full_distance = value.max(F32 { bits: ZERO_BITS });
    }

    /// The splat budget of the streaming selection.
    pub fn get_view_priority_target_budget(&self) -> (value: i32)
        ensures
            value == self.view_priority_target_budget,
    {
        self.view_priority_target_budget
    }

    /// Sets the splat budget of the streaming selection.
    pub fn set_view_priority_target_budget(&mut self, value: i32)
        ensures
            *final(self) == (GaussianSplatCloudSettings {
                view_priority_target_budget: at_least(value, 0),
                ..*old(self)
            }),
            in_range(*old(self)) ==> in_range(*final(self)),
    {
        self.view_priority_target_budget = raise(value, 0);
    }

    /// The smallest prefix that a selected chunk keeps.
    pub fn get_view_priority_min_lod_per_chunk(&self) -> (value: i32)
        ensures
            value == self.view_priority_min_lod_per_chunk,
    {
        self.view_priority_min_lod_per_chunk
    }

    /// Sets the smallest prefix that a selected chunk keeps.
    pub fn set_view_priority_min_lod_per_chunk(&mut self, value: i32)
        ensures
            *final(self) == (GaussianSplatCloudSettings {
                view_priority_min_lod_per_chunk: at_least(value, 1),
                ..*old(self)
            }),
            in_range(*old(self)) ==> in_range(*final(self)),
    {
        self.view_priority_min_lod_per_chunk = raise(value, 1);
    }

    /// Whether headsets get a fixed splat budget.
    pub fn is_xr_fixed_budget_enabled(&self) -> (value: bool)
        ensures
            value == self.xr_fixed_budget_enabled,
    {
        self.xr_fixed_budget_enabled
    }

    /// Sets whether headsets get a fixed splat budget.
    pub fn set_xr_fixed_budget_enabled(&mut self, value: bool)
        ensures
            *final(self) == (GaussianSplatCloudSettings {
                xr_fixed_budget_enabled: value,
                ..*old(self)
            }),
            in_range(*old(self)) ==> in_range(*final(self)),
    {
        self.xr_fixed_budget_enabled = value;
    }

    /// The fixed splat budget for headsets.
    pub fn get_xr_fixed_splat_budget(&self) -> (value: i32)
        ensures
            value == self.xr_fixed_splat_budget,
    {
        self.xr_fixed_splat_budget
    }

    /// Sets the fixed splat budget for headsets.
    pub fn set_xr_fixed_splat_budget(&mut self, value: i32)
        ensures
            *final(self) == (GaussianSplatCloudSettings {
                xr_fixed_splat_budget: at_least(value, 0),
                ..*old(self)
            }),
            in_range(*old(self)) ==> in_range(*final(self)),
    {
        self.xr_fixed_splat_budget = raise(value, 0);
    }

    /// Goes back to the settings that a cloud starts with.
    pub fn apply_defaults(&mut self)
        ensures
            *final(self) == default_settings(),
            in_range(*final(self)),
    {
        *self = GaussianSplatCloudSettings::default();
    }
}

} // verus!
