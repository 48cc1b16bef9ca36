//! The state of a splat node: its cloud, its settings, and what it tells others.

use crate::asset::GaussianSplatAsset;
use crate::backend::{
    backend_entries, default_backend, depth_mode_name, pipeline_choice, view_basis_name,
    BackendView, GaussianSplatBackendSettings, SPLAT_DEPTH_MODE_CENTER, VR_VIEW_BASIS_PER_EYE,
};
use crate::cloud_settings::{
    at_least, default_settings, degree_within, GaussianSplatCloudSettings,
    MIN_PREVIEW_SPLAT_RADIUS_BITS, MIN_SCALE_MULTIPLIER_BITS,
};
use crate::floats::{F32, ONE_BITS, ZERO_BITS};
use crate::import_state::{
    blank_metadata, dictionary_metadata, metadata_entries, metadata_round_trips, summary_text,
    ImportedSplatMetadata, MetadataView,
};
use crate::node::profile::{
    given_settings, preset, profile_dictionary, profile_entries, OverridesView, ProfileOverrides,
    ProfileView, RenderProfile,
};
use crate::render_packet::PIPELINE_UNCONFIGURED;
use crate::text::{ends_in, ends_with_any_case, lower_cased, text_eq};
use crate::variant::{
    single_value, single_variant, with_entry, Dictionary, Entry, Value, Variant,
};
use vstd::prelude::*;
use vstd::string::*;

verus! {

/// What a node needs to know of its cloud.
#[derive(Debug)]
pub struct AssetBrief {
    pub metadata: ImportedSplatMetadata,
    pub point_count: i32,
    pub payload_layout: String,
    pub fallback_mode: String,
    /// The splat budget that follows from the extent of the cloud.
    pub adaptive_budget: i32,
}

/// What a node needs to know of its cloud.
#[verifier::ext_equal]
pub ghost struct BriefView {
    pub metadata: MetadataView,
    pub point_count: i32,
    pub payload_layout: Seq<char>,
    pub fallback_mode: Seq<char>,
    pub adaptive_budget: i32,
}

impl View for AssetBrief {
    type V = BriefView;

    open spec fn view(&self) -> BriefView {
        BriefView {
            metadata: self.metadata@,
            point_count: self.point_count,
            payload_layout: self.payload_layout@,
            fallback_mode: self.fallback_mode@,
            adaptive_budget: self.adaptive_budget,
        }
    }
}

/// What a node needs to know of a cloud.
pub fn brief_of(asset: &GaussianSplatAsset, adaptive_budget: i32) -> (brief: AssetBrief)
    ensures
        brief@ == (BriefView {
            metadata: asset@.metadata,
            point_count: asset@.point_count,
            payload_layout: asset@.payload_layout,
            fallback_mode: asset@.fallback_mode,
            adaptive_budget,
        }),
{
    proof {
        metadata_round_trips(asset@.metadata);
    }
    AssetBrief {
        metadata: ImportedSplatMetadata::from_dictionary(asset.export_import_metadata()),
        point_count: asset.get_point_count(),
        payload_layout: asset.get_payload_layout(),
        fallback_mode: asset.get_fallback_mode(),
        adaptive_budget,
    }
}

/// A splat node.
#[derive(Debug)]
pub struct GaussianSplatNode3D {
    pub asset: Option<AssetBrief>,
    /// What an import said of the cloud since it was bound.
    pub import_metadata: Option<ImportedSplatMetadata>,
    pub cloud_settings: Option<GaussianSplatCloudSettings>,
    pub backend_settings: Option<GaussianSplatBackendSettings>,
    pub is_bound: bool,
    pub runtime_visible: bool,
    /// There is something to render.
    pub asset_ready: bool,
    /// Counts the changes that matter to the backend.
    pub revision: i64,
    pub asset_point_count: i32,
    pub profile_hint: String,
    pub render_profile: RenderProfile,
    /// The budget that every cloud is given when it is bound.
    pub profile_budget: Option<i32>,
    /// The degree that every cloud is given when it is bound.
    pub profile_sh_degree: Option<i32>,
    pub source_gltf_path: String,
    /// The columns of the basis and the origin, as imported.
    pub imported_transform: [F32; 12],
}

/// The contents of a node.
#[verifier::ext_equal]
pub ghost struct NodeView {
    pub asset: Option<BriefView>,
    pub import_metadata: Option<MetadataView>,
    pub cloud_settings: Option<GaussianSplatCloudSettings>,
    pub backend_settings: Option<BackendView>,
    pub is_bound: bool,
    pub runtime_visible: bool,
    pub asset_ready: bool,
    pub revision: i64,
    pub asset_point_count: i32,
    pub profile_hint: Seq<char>,
    pub render_profile: RenderProfile,
    pub profile_budget: Option<i32>,
    pub profile_sh_degree: Option<i32>,
    pub source_gltf_path: Seq<char>,
    pub imported_transform: [F32; 12],
}

/// The contents of a brief that may be missing.
pub open spec fn brief_view(brief: Option<AssetBrief>) -> Option<BriefView> {
    match brief {
        Some(brief) => Some(brief@),
        None => None,
    }
}

/// The contents of metadata that may be missing.
pub open spec fn metadata_view(metadata: Option<ImportedSplatMetadata>) -> Option<MetadataView> {
    match metadata {
        Some(metadata) => Some(metadata@),
        None => None,
    }
}

/// The contents of settings that may be missing.
pub open spec fn backend_view(settings: Option<GaussianSplatBackendSettings>) -> Option<
    BackendView,
> {
    match settings {
        Some(settings) => Some(settings@),
        None => None,
    }
}

impl View for GaussianSplatNode3D {
    type V = NodeView;

    open spec fn view(&self) -> NodeView {
        NodeView {
            asset: brief_view(self.asset),
            import_metadata: metadata_view(self.import_metadata),
            cloud_settings: self.cloud_settings,
            backend_settings: backend_view(self.backend_settings),
            is_bound: self.is_bound,
            runtime_visible: self.runtime_visible,
            asset_ready: self.asset_ready,
            revision: self.revision,
            asset_point_count: self.asset_point_count,
            profile_hint: self.profile_hint@,
            render_profile: self.render_profile,
            profile_budget: self.profile_budget,
            profile_sh_degree: self.profile_sh_degree,
            source_gltf_path: self.source_gltf_path@,
            imported_transform: self.imported_transform,
        }
    }
}

/// The cloud settings of a node, or those that it would be given.
pub open spec fn cloud_of(node: NodeView) -> GaussianSplatCloudSettings {
    match node.cloud_settings {
        Some(settings) => settings,
        None => default_settings(),
    }
}

/// The backend settings of a node, or those that it would be given.
pub open spec fn backend_of(node: NodeView) -> BackendView {
    match node.backend_settings {
        Some(settings) => settings,
        None => default_backend(),
    }
}

/// A node with cloud settings.
pub open spec fn with_cloud(node: NodeView, settings: GaussianSplatCloudSettings) -> NodeView {
    NodeView { cloud_settings: Some(settings), ..node }
}

/// A node with backend settings.
pub open spec fn with_backend(node: NodeView, settings: BackendView) -> NodeView {
    NodeView { backend_settings: Some(settings), ..node }
}

/// What is known of the cloud of a node: what an import said of it since it was bound, or what the
/// cloud says itself.
pub open spec fn metadata_of(node: NodeView) -> MetadataView {
    match node.import_metadata {
        Some(metadata) => metadata,
        None => match node.asset {
            Some(brief) => brief.metadata,
            None => blank_metadata(),
        },
    }
}

/// The points of the cloud of a node.
pub open spec fn points_of(node: NodeView) -> i32 {
    match node.asset {
        Some(brief) => brief.point_count,
        None => 0,
    }
}

/// The pipeline of a node.
pub open spec fn pipeline_of(node: NodeView) -> Seq<char> {
    match node.backend_settings {
        Some(settings) => pipeline_choice(settings, metadata_of(node).point_count),
        None => PIPELINE_UNCONFIGURED@,
    }
}

/// The revision after one more change. After the largest number the smallest follows.
pub open spec fn next_revision(revision: i64) -> i64 {
    if revision == i64::MAX {
        i64::MIN
    } else {
        (revision + 1) as i64
    }
}

/// A node after a change that matters to the backend. The reason stands in for a missing hint.
pub open spec fn dirtied(node: NodeView, reason: Seq<char>) -> NodeView {
    NodeView {
        revision: next_revision(node.revision),
        profile_hint: if node.profile_hint.len() == 0 {
            reason
        } else {
            node.profile_hint
        },
        ..node
    }
}

/// A number of splats limited to the points that there are.
pub open spec fn limited_splats(node: NodeView, max_splats: i32) -> i32 {
    let wanted = at_least(max_splats, 0);
    at_least(
        if wanted < points_of(node) {
            wanted
        } else {
            points_of(node)
        },
        0,
    )
}

/// A node that shows at most so many splats.
pub open spec fn showing(node: NodeView, max_splats: i32) -> NodeView {
    with_cloud(
        node,
        GaussianSplatCloudSettings {
            max_preview_splats: limited_splats(node, max_splats),
            ..cloud_of(node)
        },
    )
}

/// A node that no preset holds for any longer.
pub open spec fn customized(node: NodeView) -> NodeView {
    NodeView {
        render_profile: RenderProfile::Custom,
        profile_budget: None,
        profile_sh_degree: None,
        ..node
    }
}

/// Whether settings differ in what a preset gives the backend.
pub open spec fn differ_in_profile(a: BackendView, b: BackendView) -> bool {
    ||| a.target_hint != b.target_hint
    ||| a.per_eye != b.per_eye
    ||| a.center_depth != b.center_depth
}

/// A node after its backend settings were edited. Where they differ in what a preset gives, no
/// preset holds any longer.
pub open spec fn with_edited_backend(node: NodeView, settings: BackendView) -> NodeView {
    with_backend(
        if differ_in_profile(backend_of(node), settings) {
            customized(node)
        } else {
            node
        },
        settings,
    )
}

/// A node that backend settings were bound to.
pub open spec fn with_bound_backend(node: NodeView, settings: BackendView) -> NodeView {
    let bound = with_edited_backend(node, settings);
    dirtied(NodeView { profile_hint: pipeline_of(bound), ..bound }, "backend_settings"@)
}

/// A node whose cloud is given a budget and a degree, as far as there are any. A negative budget
/// stands for the one that follows from the extent of the cloud.
pub open spec fn with_profile_on_cloud(
    node: NodeView,
    budget: Option<i32>,
    sh_degree: Option<i32>,
) -> NodeView {
    let budgeted = match budget {
        Some(budget) => showing(
            node,
            if budget < 0 {
                match node.asset {
                    Some(brief) => brief.adaptive_budget,
                    None => 0,
                }
            } else {
                budget
            },
        ),
        None => node,
    };
    match sh_degree {
        Some(degree) => with_cloud(
            budgeted,
            GaussianSplatCloudSettings {
                sh_degree: degree_within(degree),
                ..cloud_of(budgeted)
            },
        ),
        None => budgeted,
    }
}

/// A node after its cloud has changed.
pub open spec fn refreshed(node: NodeView) -> NodeView {
    let own = NodeView { import_metadata: None, ..node };
    let set_up = with_backend(with_cloud(own, cloud_of(node)), backend_of(node));
    let known = match node.asset {
        Some(brief) => {
            let bound = NodeView {
                is_bound: true,
                asset_ready: true,
                asset_point_count: brief.point_count,
                profile_hint: pipeline_of(set_up),
                ..set_up
            };
            with_profile_on_cloud(
                showing(bound, cloud_of(bound).max_preview_splats),
                node.profile_budget,
                node.profile_sh_degree,
            )
        },
        None => NodeView {
            is_bound: false,
            asset_ready: false,
            asset_point_count: 0,
            profile_hint: Seq::empty(),
            ..set_up
        },
    };
    dirtied(known, "asset"@)
}

/// The backend settings with what is given of them.
pub open spec fn overridden(settings: BackendView, given: OverridesView) -> BackendView {
    BackendView {
        target_hint: match given.target_hint {
            Some(name) => name,
            None => settings.target_hint,
        },
        per_eye: match given.vr_view_basis {
            Some(name) => name == VR_VIEW_BASIS_PER_EYE@,
            None => settings.per_eye,
        },
        center_depth: match given.splat_depth_mode {
            Some(name) => name == SPLAT_DEPTH_MODE_CENTER@,
            None => settings.center_depth,
        },
        ..settings
    }
}

/// A node after settings were given: those of the backend hold at once, those of the cloud as soon
/// as there is one, and again for every one that is bound.
pub open spec fn profiled(node: NodeView, given: OverridesView) -> NodeView {
    let backed = with_backend(node, overridden(backend_of(node), given));
    let hinted = NodeView { profile_hint: pipeline_of(backed), ..backed };
    let noted = NodeView {
        profile_budget: if given.budget is Some {
            given.budget
        } else {
            node.profile_budget
        },
        profile_sh_degree: if given.sh_degree is Some {
            given.sh_degree
        } else {
            node.profile_sh_degree
        },
        ..dirtied(hinted, "render_profile"@)
    };
    let set_up = with_cloud(noted, cloud_of(noted));
    if node.asset is Some {
        dirtied(
            with_profile_on_cloud(set_up, given.budget, given.sh_degree),
            "preview_max_splats"@,
        )
    } else {
        set_up
    }
}

/// The settings that a preset gives, all of them.
pub open spec fn all_given(settings: ProfileView) -> OverridesView {
    OverridesView {
        target_hint: Some(settings.target_hint),
        budget: Some(settings.budget),
        sh_degree: Some(settings.sh_degree),
        vr_view_basis: Some(settings.vr_view_basis),
        splat_depth_mode: Some(settings.splat_depth_mode),
    }
}

/// The current settings of a node.
pub open spec fn current_settings(node: NodeView) -> ProfileView {
    ProfileView {
        target_hint: backend_of(node).target_hint,
        budget: cloud_of(node).max_preview_splats,
        sh_degree: cloud_of(node).sh_degree,
        vr_view_basis: view_basis_name(backend_of(node).per_eye),
        splat_depth_mode: depth_mode_name(backend_of(node).center_depth),
    }
}

/// The entries that describe the state of a node.
pub open spec fn state_entries(node: NodeView) -> Seq<Entry> {
    let e1 = with_entry(Seq::empty(), "is_bound"@, Value::Bool(node.is_bound));
    let e2 = with_entry(e1, "runtime_visible"@, Value::Bool(node.runtime_visible));
    let e3 = with_entry(e2, "asset_ready"@, Value::Bool(node.asset_ready));
    let e4 = with_entry(e3, "backend_revision"@, Value::Int(node.revision));
    let e5 = with_entry(e4, "asset_point_count"@, Value::Int(node.asset_point_count as i64));
    let e6 = with_entry(e5, "backend_profile_hint"@, Value::Text(node.profile_hint));
    with_entry(e6, "metadata"@, Value::Dict(metadata_entries(metadata_of(node))))
}

/// The entries that describe a node to the backend.
pub open spec fn model_entries(node: NodeView) -> Seq<Entry> {
    let e1 = with_entry(state_entries(node), "pipeline"@, Value::Text(pipeline_of(node)));
    let e2 = match node.backend_settings {
        Some(settings) => with_entry(
            e1,
            "backend_settings"@,
            Value::Dict(backend_entries(settings)),
        ),
        None => e1,
    };
    let e3 = match node.asset {
        Some(brief) => with_entry(
            with_entry(e2, "asset_payload_layout"@, Value::Text(brief.payload_layout)),
            "asset_fallback_mode"@,
            Value::Text(brief.fallback_mode),
        ),
        None => e2,
    };
    let e4 = with_entry(
        e3,
        "preview_max_splats"@,
        Value::Int(cloud_of(node).max_preview_splats as i64),
    );
    let e5 = with_entry(
        e4,
        "preview_max_splat_radius"@,
        single_value(cloud_of(node).max_preview_splat_radius),
    );
    with_entry(
        e5,
        "preview_scale_multiplier"@,
        single_value(cloud_of(node).gaussian_scale_multiplier),
    )
}

/// The name of a node.
pub open spec fn name_of(node: NodeView) -> Seq<char> {
    if node.is_bound {
        "GaussianSplatNode3D ("@ + summary_text(metadata_of(node)) + ")"@
    } else {
        "GaussianSplatNode3D"@
    }
}

/// Whether a node is one that nothing was done with.
pub open spec fn is_fresh_node(node: NodeView) -> bool {
    let zero = F32 { bits: ZERO_BITS };
    let one = F32 { bits: ONE_BITS };
    &&& node.asset is None
    &&& node.import_metadata is None
    &&& node.cloud_settings is None
    &&& node.backend_settings is None
    &&& !node.is_bound
    &&& node.runtime_visible
    &&& !node.asset_ready
    &&& node.revision == 0
    &&& node.asset_point_count == 0
    &&& node.profile_hint.len() == 0
    &&& node.render_profile == RenderProfile::Custom
    &&& node.profile_budget is None
    &&& node.profile_sh_degree is None
    &&& node.source_gltf_path.len() == 0
    &&& node.imported_transform@ == seq![
        one,
        zero,
        zero,
        zero,
        one,
        zero,
        zero,
        zero,
        one,
        zero,
        zero,
        zero,
    ]
}

impl Default for GaussianSplatNode3D {
    fn default() -> (node: GaussianSplatNode3D)
        ensures
            is_fresh_node(node@),
    {
        let zero = F32 { bits: ZERO_BITS };
        let one = F32 { bits: ONE_BITS };
        proof {
            reveal_strlit("");
        }
        let node = GaussianSplatNode3D {
            asset: None,
            import_metadata: None,
            cloud_settings: None,
            backend_settings: None,
            is_bound: false,
            runtime_visible: true,
            asset_ready: false,
            revision: 0,
            asset_point_count: 0,
            profile_hint: "".to_owned(),
            render_profile: RenderProfile::Custom,
            profile_budget: None,
            profile_sh_degree: None,
            source_gltf_path: "".to_owned(),
            imported_transform: [
                one,
                zero,
                zero,
                zero,
                one,
                zero,
                zero,
                zero,
                one,
                zero,
                zero,
                zero,
            ],
        };
        assert(node.imported_transform@ =~= seq![
            one,
            zero,
            zero,
            zero,
            one,
            zero,
            zero,
            zero,
            one,
            zero,
            zero,
            zero,
        ]);
        node
    }
}

impl GaussianSplatNode3D {
    /// Notes a change that matters to the backend.
    fn mark_backend_dirty(&mut self, reason: &str)
        ensures
            final(self)@ == dirtied(old(self)@, reason@),
    {
        self.revision = if self.revision == i64::MAX {
            i64::MIN
        } else {
            self.revision + 1
        };
        if self.profile_hint.as_str().unicode_len() == 0 {
            self.profile_hint = reason.to_owned();
        }
        assert(self@ =~= dirtied(old(self)@, reason@));
    }

    /// The cloud settings, or those that a node is given.
    fn current_cloud(&self) -> (settings: GaussianSplatCloudSettings)
        ensures
            settings == cloud_of(self@),
    {
        match self.cloud_settings {
            Some(settings) => settings,
            None => GaussianSplatCloudSettings::default(),
        }
    }

    /// The backend settings, or those that a node is given.
    fn current_backend(&self) -> (settings: GaussianSplatBackendSettings)
        ensures
            settings@ == backend_of(self@),
    {
        match &self.backend_settings {
            Some(settings) => settings.duplicate(),
            None => GaussianSplatBackendSettings::default(),
        }
    }

    /// Sees to it that there are cloud settings.
    fn ensure_cloud_settings(&mut self)
        ensures
            final(self)@ == with_cloud(old(self)@, cloud_of(old(self)@)),
    {
        let settings: GaussianSplatCloudSettings = self.current_cloud();
        self.cloud_settings = Some(settings);
        assert(self@ =~= with_cloud(old(self)@, cloud_of(old(self)@)));
    }

    /// Sees to it that there are backend settings.
    fn ensure_backend_settings(&mut self)
        ensures
            final(self)@ == with_backend(old(self)@, backend_of(old(self)@)),
    {
        let settings: GaussianSplatBackendSettings = self.current_backend();
        self.backend_settings = Some(settings);
        assert(self@ =~= with_backend(old(self)@, backend_of(old(self)@)));
    }

    /// What is known of the cloud.
    fn imported_metadata(&self) -> (metadata: ImportedSplatMetadata)
        ensures
            metadata@ == metadata_of(self@),
    {
        proof {
            metadata_round_trips(metadata_of(self@));
        }
        match &self.import_metadata {
            Some(metadata) => ImportedSplatMetadata::from_dictionary(metadata.to_dictionary()),
            None => match &self.asset {
                Some(brief) => ImportedSplatMetadata::from_dictionary(
                    brief.metadata.to_dictionary(),
                ),
                None => ImportedSplatMetadata::default(),
            },
        }
    }

    /// The pipeline.
    pub fn resolve_backend_pipeline(&self) -> (pipeline: &'static str)
        ensures
            pipeline@ == pipeline_of(self@),
    {
        let metadata: ImportedSplatMetadata = self.imported_metadata();
        match &self.backend_settings {
            Some(settings) => settings.resolve_pipeline_for_metadata(&metadata),
            None => PIPELINE_UNCONFIGURED,
        }
    }

    /// A number of splats limited to the points that there are.
    fn clamp_preview_max_splats(&self, max_splats: i32) -> (splats: i32)
        ensures
            splats == limited_splats(self@, max_splats),
    {
        let points: i32 = match &self.asset {
            Some(brief) => brief.point_count,
            None => 0,
        };
        let wanted: i32 = if max_splats < 0 {
            0
        } else {
            max_splats
        };
        let limited: i32 = if wanted < points {
            wanted
        } else {
            points
        };
        if limited < 0 {
            0
        } else {
            limited
        }
    }

    /// Shows at most so many splats.
    fn show(&mut self, max_splats: i32)
        ensures
            final(self)@ == showing(old(self)@, max_splats),
    {
        let limited: i32 = self.clamp_preview_max_splats(max_splats);
        let mut settings: GaussianSplatCloudSettings = self.current_cloud();
        settings.set_max_preview_splats(limited);
        self.cloud_settings = Some(settings);
        assert(self@ =~= showing(old(self)@, max_splats));
    }

    /// Gives the cloud a budget and a degree, as far as there are any.
    fn apply_profile_to_cloud(&mut self, budget: Option<i32>, sh_degree: Option<i32>)
        ensures
            final(self)@ == with_profile_on_cloud(old(self)@, budget, sh_degree),
    {
        if let Some(budget) = budget {
            let wanted: i32 = if budget < 0 {
                match &self.asset {
                    Some(brief) => brief.adaptive_budget,
                    None => 0,
                }
            } else {
                budget
            };
            self.show(wanted);
        }
        if let Some(degree) = sh_degree {
            let ghost before = self@;
            let mut settings: GaussianSplatCloudSettings = self.current_cloud();
            settings.set_sh_degree(degree);
            self.cloud_settings = Some(settings);
            assert(self@ =~= with_cloud(
                before,
                GaussianSplatCloudSettings {
                    sh_degree: degree_within(degree),
                    ..cloud_of(before)
                },
            ));
        }
    }

    /// No preset holds any longer.
    fn customize(&mut self)
        ensures
            final(self)@ == customized(old(self)@),
    {
        self.render_profile = RenderProfile::Custom;
        self.profile_budget = None;
        self.profile_sh_degree = None;
        assert(self@ =~= customized(old(self)@));
    }

    /// Takes over what has changed of the cloud.
    fn refresh_from_asset(&mut self)
        ensures
            final(self)@ == refreshed(old(self)@),
    {
        self.import_metadata = None;
        assert(self@ =~= (NodeView { import_metadata: None, ..old(self)@ }));
        self.ensure_cloud_settings();
        self.ensure_backend_settings();
        let ghost set_up = self@;
        let hint: &'static str = self.resolve_backend_pipeline();
        let points: Option<i32> = match &self.asset {
            Some(brief) => Some(brief.point_count),
            None => None,
        };
        match points {
            Some(points) => {
                self.is_bound = true;
                self.asset_ready = true;
                self.asset_point_count = points;
                self.profile_hint = hint.to_owned();
                let ghost bound = self@;
                proof {
                    assert(bound =~= (NodeView {
                        is_bound: true,
                        asset_ready: true,
                        asset_point_count: points,
                        profile_hint: pipeline_of(set_up),
                        ..set_up
                    }));
                }
                let shown: i32 = self.current_cloud().max_preview_splats;
                self.show(shown);
                self.apply_profile_to_cloud(self.profile_budget, self.profile_sh_degree);
            },
            None => {
                self.is_bound = false;
                self.asset_ready = false;
                self.asset_point_count = 0;
                proof {
                    reveal_strlit("");
                }
                self.profile_hint = "".to_owned();
                assert(self@ =~= (NodeView {
                    is_bound: false,
                    asset_ready: false,
                    asset_point_count: 0,
                    profile_hint: Seq::empty(),
                    ..set_up
                }));
            },
        }
        self.mark_backend_dirty("asset");
    }

    /// Binds a cloud, or none.
    pub fn bind_asset(&mut self, asset: Option<AssetBrief>)
        ensures
            final(self)@ == refreshed((NodeView { asset: brief_view(asset), ..old(self)@ })),
    {
        self.asset = asset;
        assert(self@ =~= (NodeView { asset: brief_view(asset), ..old(self)@ }));
        self.refresh_from_asset();
    }

    /// Lets go of the cloud.
    pub fn unbind_asset(&mut self)
        ensures
            final(self)@ == (NodeView {
                asset: None,
                import_metadata: None,
                is_bound: false,
                ..old(self)@
            }),
            metadata_of(final(self)@) == blank_metadata(),
    {
        self.asset = None;
        self.import_metadata = None;
        self.is_bound = false;
        assert(self@ =~= (NodeView {
            asset: None,
            import_metadata: None,
            is_bound: false,
            ..old(self)@
        }));
    }

    /// Whether there is a cloud.
    pub fn has_asset(&self) -> (result: bool)
        ensures
            result == self@.asset is Some,
    {
        self.asset.is_some()
    }

    /// Whether a cloud is bound.
    pub fn is_bound(&self) -> (result: bool)
        ensures
            result == self@.is_bound,
    {
        self.is_bound
    }

    /// One line about the cloud.
    pub fn get_metadata_summary(&self) -> (text: String)
        ensures
            text@ == summary_text(metadata_of(self@)),
    {
        self.imported_metadata().summary()
    }

    /// Sets what is known of the cloud. The node counts as bound.
    pub fn set_import_metadata(&mut self, metadata: Dictionary)
        ensures
            final(self)@ == (NodeView {
                import_metadata: Some(dictionary_metadata(metadata@)),
                is_bound: true,
                ..old(self)@
            }),
            final(self)@.is_bound,
            metadata_of(final(self)@) == dictionary_metadata(metadata@),
    {
        let ghost entries = metadata@;
        self.import_metadata = Some(ImportedSplatMetadata::from_dictionary(metadata));
        self.is_bound = true;
        assert(self@ =~= (NodeView {
            import_metadata: Some(dictionary_metadata(entries)),
            is_bound: true,
            ..old(self)@
        }));
    }

    /// A dictionary with what is known of the cloud.
    pub fn export_import_metadata(&self) -> (dict: Dictionary)
        ensures
            dict@ == metadata_entries(metadata_of(self@)),
    {
        self.imported_metadata().to_dictionary()
    }

    /// How many points the cloud had when it was bound.
    pub fn get_imported_point_count(&self) -> (count: i32)
        ensures
            count == self@.asset_point_count,
    {
        self.asset_point_count
    }

    /// Sets how many points the cloud had when it was bound.
    pub fn set_imported_point_count(&mut self, point_count: i32)
        ensures
            final(self)@ == (NodeView {
                asset_point_count: at_least(point_count, 0),
                ..old(self)@
            }),
    {
        self.asset_point_count = if point_count < 0 {
            0
        } else {
            point_count
        };
        assert(self@ =~= (NodeView {
            asset_point_count: at_least(point_count, 0),
            ..old(self)@
        }));
    }

    /// Binds cloud settings; without any, those that a node is given.
    pub fn bind_cloud_settings(&mut self, settings: Option<GaussianSplatCloudSettings>)
        ensures
            final(self)@ == dirtied(
                with_cloud(
                    old(self)@,
                    match settings {
                        Some(settings) => settings,
                        None => default_settings(),
                    },
                ),
                "cloud_settings"@,
            ),
    {
        self.cloud_settings = settings;
        let ghost set = self@;
        assert(set =~= (NodeView { cloud_settings: settings, ..old(self)@ }));
        self.ensure_cloud_settings();
        assert(self@ =~= with_cloud(old(self)@, cloud_of(set)));
        self.mark_backend_dirty("cloud_settings");
    }

    /// The cloud settings.
    pub fn get_cloud_settings(&self) -> (settings: Option<GaussianSplatCloudSettings>)
        ensures
            settings == self@.cloud_settings,
    {
        self.cloud_settings
    }

    /// How many splats are shown.
    pub fn get_preview_max_splats(&self) -> (splats: i32)
        ensures
            splats == cloud_of(self@).max_preview_splats,
    {
        self.current_cloud().max_preview_splats
    }

    /// Sets how many splats are shown. No preset holds any longer.
    pub fn set_preview_max_splats(&mut self, max_splats: i32)
        ensures
            final(self)@ == dirtied(
                showing(customized(old(self)@), max_splats),
                "preview_max_splats"@,
            ),
    {
        self.customize();
        self.show(max_splats);
        self.mark_backend_dirty("preview_max_splats");
    }

    /// The degree up to which coefficients are evaluated.
    pub fn get_sh_degree(&self) -> (degree: i32)
        ensures
            degree == cloud_of(self@).sh_degree,
    {
        self.current_cloud().sh_degree
    }

    /// Sets the degree up to which coefficients are evaluated. No preset holds any longer.
    pub fn set_sh_degree(&mut self, sh_degree: i32)
        ensures
            final(self)@ == dirtied(
                with_cloud(
                    customized(old(self)@),
                    GaussianSplatCloudSettings {
                        sh_degree: degree_within(sh_degree),
                        ..cloud_of(old(self)@)
                    },
                ),
                "sh_degree"@,
            ),
    {
        self.customize();
        let ghost before = self@;
        let mut settings: GaussianSplatCloudSettings = self.current_cloud();
        settings.set_sh_degree(sh_degree);
        self.cloud_settings = Some(settings);
        assert(self@ =~= with_cloud(before, settings));
        self.mark_backend_dirty("sh_degree");
    }

    /// The radius that splats are limited to.
    pub fn get_preview_max_splat_radius(&self) -> (radius: F32)
        ensures
            radius == cloud_of(self@).max_preview_splat_radius,
    {
        self.current_cloud().max_preview_splat_radius
    }

    /// Sets the radius that splats are limited to.
    pub fn set_preview_max_splat_radius(&mut self, max_splat_radius: F32)
        ensures
            final(self)@ == dirtied(
                with_cloud(
                    old(self)@,
                    GaussianSplatCloudSettings {
                        max_preview_splat_radius: max_splat_radius.larger(
                            F32 { bits: MIN_PREVIEW_SPLAT_RADIUS_BITS },
                        ),
                        ..cloud_of(old(self)@)
                    },
                ),
                "preview_max_splat_radius"@,
            ),
    {
        let mut settings: GaussianSplatCloudSettings = self.current_cloud();
        settings.set_max_preview_splat_radius(max_splat_radius);
        self.cloud_settings = Some(settings);
        assert(self@ =~= with_cloud(old(self)@, settings));
        self.mark_backend_dirty("preview_max_splat_radius");
    }

    /// What the size of splats is multiplied with.
    pub fn get_preview_scale_multiplier(&self) -> (scale: F32)
        ensures
            scale == cloud_of(self@).gaussian_scale_multiplier,
    {
        self.current_cloud().gaussian_scale_multiplier
    }

    /// Sets what the size of splats is multiplied with.
    pub fn set_preview_scale_multiplier(&mut self, scale_multiplier: F32)
        ensures
            final(self)@ == dirtied(
                with_cloud(
                    old(self)@,
                    GaussianSplatCloudSettings {
                        gaussian_scale_multiplier: scale_multiplier.larger(
                            F32 { bits: MIN_SCALE_MULTIPLIER_BITS },
                        ),
                        ..cloud_of(old(self)@)
                    },
                ),
                "preview_scale_multiplier"@,
            ),
    {
        let mut settings: GaussianSplatCloudSettings = self.current_cloud();
        settings.set_gaussian_scale_multiplier(scale_multiplier);
        self.cloud_settings = Some(settings);
        assert(self@ =~= with_cloud(old(self)@, settings));
        self.mark_backend_dirty("preview_scale_multiplier");
    }

    /// Shows all splats.
    pub fn show_all_preview_splats(&mut self)
        ensures
            final(self)@ == dirtied(
                showing(customized(old(self)@), points_of(old(self)@)),
                "preview_max_splats"@,
            ),
    {
        let points: i32 = match &self.asset {
            Some(brief) => brief.point_count,
            None => 0,
        };
        self.set_preview_max_splats(points);
    }

    /// The switch that shows all splats is never seen on.
    pub fn get_show_all_preview_splats_action(&self) -> (on: bool)
        ensures
            !on,
    {
        false
    }

    /// Shows all splats when the switch is turned on.
    pub fn set_show_all_preview_splats_action(&mut self, enabled: bool)
        ensures
            final(self)@ == (if enabled {
                dirtied(
                    showing(customized(old(self)@), points_of(old(self)@)),
                    "preview_max_splats"@,
                )
            } else {
                old(self)@
            }),
    {
        if enabled {
            self.show_all_preview_splats();
        }
    }

    /// Takes over backend settings that were edited. Where they differ in what a preset gives, no
    /// preset holds any longer.
    pub fn adopt_backend_settings(&mut self, settings: GaussianSplatBackendSettings)
        ensures
            final(self)@ == with_edited_backend(old(self)@, settings@),
    {
        let current: GaussianSplatBackendSettings = self.current_backend();
        let same_target: bool = text_eq(
            current.target_hint.as_str(),
            settings.target_hint.as_str(),
        );
        if !same_target || current.per_eye != settings.per_eye || current.center_depth
            != settings.center_depth {
            self.customize();
        }
        self.backend_settings = Some(settings);
        assert(self@ =~= with_edited_backend(old(self)@, settings@));
    }

    /// Binds backend settings; without any, those that a node is given. Where they differ in what a
    /// preset gives, no preset holds any longer.
    pub fn bind_backend_settings(&mut self, settings: Option<GaussianSplatBackendSettings>)
        ensures
            final(self)@ == with_bound_backend(
                old(self)@,
                match settings {
                    Some(settings) => settings@,
                    None => default_backend(),
                },
            ),
    {
        let settings: GaussianSplatBackendSettings = match settings {
            Some(settings) => settings,
            None => GaussianSplatBackendSettings::default(),
        };
        self.adopt_backend_settings(settings);
        let ghost bound = self@;
        let hint: &'static str = self.resolve_backend_pipeline();
        self.profile_hint = hint.to_owned();
        assert(self@ =~= (NodeView { profile_hint: pipeline_of(bound), ..bound }));
        self.mark_backend_dirty("backend_settings");
    }

    /// The backend settings.
    pub fn get_backend_settings(&self) -> (settings: Option<&GaussianSplatBackendSettings>)
        ensures
            match settings {
                Some(settings) => self@.backend_settings == Some(settings@),
                None => self@.backend_settings is None,
            },
    {
        self.backend_settings.as_ref()
    }

    /// Sets where the cloud was imported to.
    pub fn set_imported_transform(&mut self, transform: [F32; 12])
        ensures
            final(self)@ == dirtied(
                NodeView { imported_transform: transform, ..old(self)@ },
                "import_transform"@,
            ),
    {
        self.imported_transform = transform;
        assert(self@ =~= (NodeView { imported_transform: transform, ..old(self)@ }));
        self.mark_backend_dirty("import_transform");
    }

    /// Where the cloud was imported to.
    pub fn get_imported_transform(&self) -> (transform: [F32; 12])
        ensures
            transform == self@.imported_transform,
    {
        self.imported_transform
    }

    /// Sets whether the node is to be seen.
    pub fn set_runtime_visible(&mut self, visible: bool)
        ensures
            final(self)@ == (NodeView { runtime_visible: visible, ..old(self)@ }),
    {
        self.runtime_visible = visible;
        assert(self@ =~= (NodeView { runtime_visible: visible, ..old(self)@ }));
    }

    /// Whether the node is to be seen.
    pub fn is_runtime_visible(&self) -> (visible: bool)
        ensures
            visible == self@.runtime_visible,
    {
        self.runtime_visible
    }

    /// Whether the node can be seen: it is to be seen, and there is something to render.
    pub fn should_be_visible(&self) -> (visible: bool)
        ensures
            visible == (self@.runtime_visible && self@.asset_ready),
    {
        self.runtime_visible && self.asset_ready
    }

    /// Takes note that the scene came with something to render.
    pub fn adopt_serialized_render(&mut self)
        ensures
            final(self)@ == (NodeView { asset_ready: true, ..old(self)@ }),
    {
        self.asset_ready = true;
        assert(self@ =~= (NodeView { asset_ready: true, ..old(self)@ }));
    }

    /// The number of changes that matter to the backend.
    pub fn get_backend_revision(&self) -> (revision: i64)
        ensures
            revision == self@.revision,
    {
        self.revision
    }

    /// The path of the scene file.
    pub fn get_source_gltf(&self) -> (path: String)
        ensures
            path@ == self@.source_gltf_path,
    {
        self.source_gltf_path.clone()
    }

    /// Sets the path of the scene file. Says whether it is to be loaded: an empty path leaves the
    /// cloud that there is.
    pub fn set_source_gltf(&mut self, path: &str) -> (load: bool)
        ensures
            load == (path@.len() > 0),
            final(self)@ == (NodeView { source_gltf_path: path@, ..old(self)@ }),
    {
        self.source_gltf_path = path.to_owned();
        assert(self@ =~= (NodeView { source_gltf_path: path@, ..old(self)@ }));
        path.unicode_len() > 0
    }

    /// Whether the source is a pack; otherwise it is a scene file.
    pub fn is_pack_source(&self) -> (result: bool)
        ensures
            result == ends_in(lower_cased(self@.source_gltf_path), ".gsplatpack"@),
    {
        ends_with_any_case(self.source_gltf_path.as_str(), ".gsplatpack")
    }

    /// The profile.
    pub fn get_render_profile(&self) -> (profile: RenderProfile)
        ensures
            profile == self@.render_profile,
    {
        self.render_profile
    }

    /// Sets the profile. A preset is applied; without one, everything stays as it is.
    pub fn set_render_profile(&mut self, profile: RenderProfile)
        ensures
            ({
                let set = NodeView { render_profile: profile, ..old(self)@ };
                final(self)@ == match preset(profile) {
                    Some(settings) => profiled(set, all_given(settings)),
                    None => NodeView { profile_budget: None, profile_sh_degree: None, ..set },
                }
            }),
    {
        self.render_profile = profile;
        let ghost set = self@;
        assert(set =~= (NodeView { render_profile: profile, ..old(self)@ }));
        match profile.settings() {
            Some(settings) => {
                let overrides = ProfileOverrides {
                    target_hint: Some(settings.target_hint.to_owned()),
                    budget: Some(settings.budget),
                    sh_degree: Some(settings.sh_degree),
                    vr_view_basis: Some(settings.vr_view_basis.to_owned()),
                    splat_depth_mode: Some(settings.splat_depth_mode.to_owned()),
                };
                assert(overrides@ =~= all_given(settings@));
                self.apply_overrides(&overrides);
            },
            None => {
                self.profile_budget = None;
                self.profile_sh_degree = None;
                assert(self@ =~= (NodeView {
                    profile_budget: None,
                    profile_sh_degree: None,
                    ..set
                }));
            },
        }
    }

    /// Applies the settings that are given.
    fn apply_overrides(&mut self, overrides: &ProfileOverrides)
        ensures
            final(self)@ == profiled(old(self)@, overrides@),
    {
        let mut backend: GaussianSplatBackendSettings = self.current_backend();
        if let Some(name) = &overrides.target_hint {
            backend.set_target_hint(name.as_str());
        }
        if let Some(name) = &overrides.vr_view_basis {
            backend.set_vr_view_basis(name.as_str());
        }
        if let Some(name) = &overrides.splat_depth_mode {
            backend.set_splat_depth_mode(name.as_str());
        }
        assert(backend@ =~= overridden(backend_of(old(self)@), overrides@));
        self.backend_settings = Some(backend);
        let ghost backed = self@;
        assert(backed =~= with_backend(
            old(self)@,
            overridden(backend_of(old(self)@), overrides@),
        ));
        let hint: &'static str = self.resolve_backend_pipeline();
        self.profile_hint = hint.to_owned();
        assert(self@ =~= (NodeView { profile_hint: pipeline_of(backed), ..backed }));
        self.mark_backend_dirty("render_profile");
        let ghost marked = self@;
        if overrides.budget.is_some() {
            self.profile_budget = overrides.budget;
        }
        if overrides.sh_degree.is_some() {
            self.profile_sh_degree = overrides.sh_degree;
        }
        assert(self@ =~= (NodeView {
            profile_budget: if overrides@.budget is Some {
                overrides@.budget
            } else {
                old(self)@.profile_budget
            },
            profile_sh_degree: if overrides@.sh_degree is Some {
                overrides@.sh_degree
            } else {
                old(self)@.profile_sh_degree
            },
            ..marked
        }));
        self.ensure_cloud_settings();
        if self.asset.is_some() {
            self.apply_profile_to_cloud(overrides.budget, overrides.sh_degree);
            self.mark_backend_dirty("preview_max_splats");
        }
    }

    /// The settings of a profile as a dictionary; without a preset, the current ones.
    pub fn get_profile_settings(&self, profile: RenderProfile) -> (dict: Dictionary)
        ensures
            dict@ == profile_entries(
                match preset(profile) {
                    Some(settings) => settings,
                    None => current_settings(self@),
                },
            ),
    {
        match profile.settings() {
            Some(settings) => profile_dictionary(
                settings.target_hint,
                settings.budget,
                settings.sh_degree,
                settings.vr_view_basis,
                settings.splat_depth_mode,
            ),
            None => {
                let backend: GaussianSplatBackendSettings = self.current_backend();
                let cloud: GaussianSplatCloudSettings = self.current_cloud();
                profile_dictionary(
                    backend.target_hint.as_str(),
                    cloud.max_preview_splats,
                    cloud.sh_degree,
                    backend.get_vr_view_basis(),
                    backend.get_splat_depth_mode(),
                )
            },
        }
    }

    /// Applies the settings that a dictionary gives; one that it does not give stays as it is.
    pub fn apply_profile_settings(&mut self, settings: &Dictionary)
        ensures
            final(self)@ == profiled(old(self)@, given_settings(settings@)),
    {
        let overrides: ProfileOverrides = ProfileOverrides::from_dictionary(settings);
        self.apply_overrides(&overrides);
    }

    /// A dictionary that describes the state of the node.
    pub fn export_runtime_state(&self) -> (dict: Dictionary)
        ensures
            dict@ == state_entries(self@),
    {
        let mut dict = Dictionary::new();
        dict.set("is_bound", Variant::Bool(self.is_bound));
        dict.set("runtime_visible", Variant::Bool(self.runtime_visible));
        dict.set("asset_ready", Variant::Bool(self.asset_ready));
        dict.set("backend_revision", Variant::Int(self.revision));
        dict.set("asset_point_count", Variant::Int(self.asset_point_count as i64));
        dict.set("backend_profile_hint", Variant::Text(self.profile_hint.clone()));
        dict.set("metadata", Variant::Dict(self.imported_metadata().to_dictionary()));
        dict
    }

    /// A dictionary that describes the node to the backend.
    pub fn export_backend_model(&self) -> (dict: Dictionary)
        ensures
            dict@ == model_entries(self@),
    {
        let mut dict: Dictionary = self.export_runtime_state();
        dict.set("pipeline", Variant::Text(self.resolve_backend_pipeline().to_owned()));
        if let Some(settings) = &self.backend_settings {
            dict.set("backend_settings", Variant::Dict(settings.export_settings()));
        }
        if let Some(brief) = &self.asset {
            dict.set("asset_payload_layout", Variant::Text(brief.payload_layout.clone()));
            dict.set("asset_fallback_mode", Variant::Text(brief.fallback_mode.clone()));
        }
        dict.set("preview_max_splats", Variant::Int(self.get_preview_max_splats() as i64));
        dict.set(
            "preview_max_splat_radius",
            single_variant(self.get_preview_max_splat_radius()),
        );
        dict.set(
            "preview_scale_multiplier",
            single_variant(self.get_preview_scale_multiplier()),
        );
        dict
    }

    /// The name of the node.
    pub fn node_name(&self) -> (name: String)
        ensures
            name@ == name_of(self@),
    {
        if self.is_bound {
            let mut name: String = "GaussianSplatNode3D (".to_owned();
            name.append(self.imported_metadata().summary().as_str());
            name.append(")");
            name
        } else {
            "GaussianSplatNode3D".to_owned()
        }
    }
}

/// The splats that the profile of a node gives its cloud.
pub open spec fn profile_splats(node: NodeView, budget: i32) -> i32 {
    limited_splats(
        node,
        if budget < 0 {
            match node.asset {
                Some(brief) => brief.adaptive_budget,
                None => 0,
            }
        } else {
            budget
        },
    )
}

/// However a node came by its cloud, by its profile or by its budget, it shows no more splats than
/// the cloud has points.
pub proof fn shown_splats_are_limited(node: NodeView, given: OverridesView, max_splats: i32)
    requires
        node.asset is Some,
        points_of(node) >= 0,
        cloud_of(node).max_preview_splats <= points_of(node),
    ensures
        cloud_of(refreshed(node)).max_preview_splats <= points_of(node),
        cloud_of(profiled(node, given)).max_preview_splats <= points_of(node),
        cloud_of(showing(customized(node), max_splats)).max_preview_splats <= points_of(node),
{
}

/// A cloud that is bound is limited to the points that it has, whatever was shown before.
pub proof fn bound_cloud_is_limited(node: NodeView)
    requires
        node.asset is Some,
        points_of(node) >= 0,
    ensures
        0 <= cloud_of(refreshed(node)).max_preview_splats <= points_of(node),
{
}

/// Under the high profile every cloud is shown in full.
pub proof fn high_profile_shows_everything(node: NodeView)
    requires
        node.asset is Some,
        points_of(node) >= 0,
    ensures
        cloud_of(
            profiled(node, all_given(preset(RenderProfile::High)->0)),
        ).max_preview_splats == points_of(node),
{
}

/// What settings say of clouds is applied anew to every cloud that is bound, and what they say of
/// the backend stays.
pub proof fn profile_survives_rebinding(node: NodeView, given: OverridesView, asset: BriefView)
    ensures
        ({
            let applied = profiled(node, given);
            let rebound = refreshed(NodeView { asset: Some(asset), ..applied });
            &&& given.budget matches Some(budget) ==> cloud_of(rebound).max_preview_splats
                == profile_splats(rebound, budget)
            &&& given.sh_degree matches Some(degree) ==> cloud_of(rebound).sh_degree
                == degree_within(degree)
            &&& backend_of(rebound) == overridden(backend_of(node), given)
        }),
{
}

/// Whether no preset holds for a node, so that the next cloud is only limited to the points that it
/// has and the degree stays.
pub open spec fn is_left_alone(node: NodeView, asset: BriefView) -> bool {
    let next = NodeView { asset: Some(asset), ..node };
    let rebound = refreshed(next);
    &&& node.render_profile == RenderProfile::Custom
    &&& rebound.render_profile == RenderProfile::Custom
    &&& cloud_of(rebound).max_preview_splats == limited_splats(
        next,
        cloud_of(node).max_preview_splats,
    )
    &&& cloud_of(rebound).sh_degree == cloud_of(node).sh_degree
}

/// Editing the budget, the degree, or what a preset gives the backend ends the preset: it is not
/// applied to later clouds, and the edited settings stay.
pub proof fn editing_ends_the_preset(
    node: NodeView,
    max_splats: i32,
    sh_degree: i32,
    settings: BackendView,
    asset: BriefView,
)
    ensures
        is_left_alone(
            dirtied(showing(customized(node), max_splats), "preview_max_splats"@),
            asset,
        ),
        is_left_alone(
            dirtied(
                with_cloud(
                    customized(node),
                    GaussianSplatCloudSettings {
                        sh_degree: degree_within(sh_degree),
                        ..cloud_of(node)
                    },
                ),
                "sh_degree"@,
            ),
            asset,
        ),
        differ_in_profile(backend_of(node), settings) ==> is_left_alone(
            with_bound_backend(node, settings),
            asset,
        ),
        backend_of(
            refreshed(NodeView { asset: Some(asset), ..with_bound_backend(node, settings) }),
        ) == settings,
{
}

/// Backend settings that agree with those of a node in what a preset gives leave the preset as it
/// is.
pub proof fn other_settings_keep_the_preset(node: NodeView, settings: BackendView)
    requires
        !differ_in_profile(backend_of(node), settings),
    ensures
        ({
            let bound = with_bound_backend(node, settings);
            &&& bound.render_profile == node.render_profile
            &&& bound.profile_budget == node.profile_budget
            &&& bound.profile_sh_degree == node.profile_sh_degree
        }),
{
}

/// A cloud that is bound takes the place of what an import said before.
pub proof fn binding_replaces_metadata(node: NodeView, asset: Option<BriefView>)
    ensures
        metadata_of(refreshed(NodeView { asset, ..node })) == match asset {
            Some(brief) => brief.metadata,
            None => blank_metadata(),
        },
{
}

/// What a dictionary does not give stays as it is.
pub proof fn missing_settings_stay(node: NodeView, given: OverridesView)
    ensures
        given.target_hint is None ==> backend_of(profiled(node, given)).target_hint
            == backend_of(node).target_hint,
        given.vr_view_basis is None ==> backend_of(profiled(node, given)).per_eye
            == backend_of(node).per_eye,
        given.splat_depth_mode is None ==> backend_of(profiled(node, given)).center_depth
            == backend_of(node).center_depth,
        given.budget is None ==> cloud_of(profiled(node, given)).max_preview_splats == cloud_of(
            node,
        ).max_preview_splats,
        given.sh_degree is None ==> cloud_of(profiled(node, given)).sh_degree == cloud_of(
            node,
        ).sh_degree,
{
}

} // verus!
