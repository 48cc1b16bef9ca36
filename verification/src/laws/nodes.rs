//! Nodes: what is set is what is told and what is shown.

use crate::backend::{
    backend_entries, depth_mode_name, pipeline_choice, view_basis_name, BackendView,
};
use crate::cloud_settings::{
    degree_within, named_selection, ChunkSelection, GaussianSplatCloudSettings,
};
use crate::floats::F32;
use crate::import_state::metadata_entries;
use crate::node::profile::{
    adaptive_budget, given_settings, preset, profile_entries, OverridesView, ProfileView,
    RenderProfile,
};
use crate::node::state::{
    backend_of, cloud_of, current_settings, dirtied, metadata_of, model_entries, pipeline_of,
    points_of, profiled, refreshed, showing, state_entries, with_bound_backend, with_edited_backend,
    BriefView, NodeView,
};
use crate::render_manager::{
    all_uploads, count_with_status, packet_uploads, stats_entries, sums_fit, total_bytes,
    total_points, upload_entries, upload_size, uploads_cover_the_packet, ManagerView,
    RegisteredView, UploadView,
};
use crate::render_packet::{packet_entries, status_of, upload_format_of, PacketView};
use crate::variant::{
    int_under, lookup, lookup_after_set, single_value, text_under, with_entry, Entry, Value,
};
use vstd::prelude::*;
use vstd::string::*;

verus! {

proof fn lemma_state_lookup(node: NodeView, key: Seq<char>)
    ensures
        lookup(state_entries(node), key) == (if key == "metadata"@ {
            Some(Value::Dict(metadata_entries(metadata_of(node))))
        } else if key == "backend_profile_hint"@ {
            Some(Value::Text(node.profile_hint))
        } else if key == "asset_point_count"@ {
            Some(Value::Int(node.asset_point_count as i64))
        } else if key == "backend_revision"@ {
            Some(Value::Int(node.revision))
        } else if key == "asset_ready"@ {
            Some(Value::Bool(node.asset_ready))
        } else if key == "runtime_visible"@ {
            Some(Value::Bool(node.runtime_visible))
        } else if key == "is_bound"@ {
            Some(Value::Bool(node.is_bound))
        } else {
            None::<Value>
        }),
{
    let e0 = Seq::<Entry>::empty();
    lookup_after_set(e0, "is_bound"@, Value::Bool(node.is_bound), key);
    let e1 = with_entry(e0, "is_bound"@, Value::Bool(node.is_bound));
    lookup_after_set(e1, "runtime_visible"@, Value::Bool(node.runtime_visible), key);
    let e2 = with_entry(e1, "runtime_visible"@, Value::Bool(node.runtime_visible));
    lookup_after_set(e2, "asset_ready"@, Value::Bool(node.asset_ready), key);
    let e3 = with_entry(e2, "asset_ready"@, Value::Bool(node.asset_ready));
    lookup_after_set(e3, "backend_revision"@, Value::Int(node.revision), key);
    let e4 = with_entry(e3, "backend_revision"@, Value::Int(node.revision));
    lookup_after_set(e4, "asset_point_count"@, Value::Int(node.asset_point_count as i64), key);
    let e5 = with_entry(e4, "asset_point_count"@, Value::Int(node.asset_point_count as i64));
    lookup_after_set(e5, "backend_profile_hint"@, Value::Text(node.profile_hint), key);
    let e6 = with_entry(e5, "backend_profile_hint"@, Value::Text(node.profile_hint));
    lookup_after_set(e6, "metadata"@, Value::Dict(metadata_entries(metadata_of(node))), key);
}

/// The state that a node tells of itself is its own, field by field.
pub proof fn state_tells_every_field(node: NodeView)
    ensures
        lookup(state_entries(node), "is_bound"@) == Some(Value::Bool(node.is_bound)),
        lookup(state_entries(node), "runtime_visible"@) == Some(Value::Bool(node.runtime_visible)),
        lookup(state_entries(node), "asset_ready"@) == Some(Value::Bool(node.asset_ready)),
        lookup(state_entries(node), "backend_revision"@) == Some(Value::Int(node.revision)),
        lookup(state_entries(node), "asset_point_count"@) == Some(
            Value::Int(node.asset_point_count as i64),
        ),
        lookup(state_entries(node), "backend_profile_hint"@) == Some(
            Value::Text(node.profile_hint),
        ),
        lookup(state_entries(node), "metadata"@) == Some(
            Value::Dict(metadata_entries(metadata_of(node))),
        ),
{
    reveal_strlit("is_bound");
    assert("is_bound"@.len() == 8);
    reveal_strlit("runtime_visible");
    assert("runtime_visible"@.len() == 15);
    reveal_strlit("asset_ready");
    assert("asset_ready"@.len() == 11);
    reveal_strlit("backend_revision");
    assert("backend_revision"@.len() == 16);
    reveal_strlit("asset_point_count");
    assert("asset_point_count"@.len() == 17);
    reveal_strlit("backend_profile_hint");
    assert("backend_profile_hint"@.len() == 20);
    reveal_strlit("metadata");
    assert("metadata"@.len() == 8);
    assert("is_bound"@[0] != "metadata"@[0]);
    lemma_state_lookup(node, "is_bound"@);
    lemma_state_lookup(node, "runtime_visible"@);
    lemma_state_lookup(node, "asset_ready"@);
    lemma_state_lookup(node, "backend_revision"@);
    lemma_state_lookup(node, "asset_point_count"@);
    lemma_state_lookup(node, "backend_profile_hint"@);
    lemma_state_lookup(node, "metadata"@);
}

proof fn lemma_backend_lookup(settings: BackendView, key: Seq<char>)
    ensures
        lookup(backend_entries(settings), key) == (if key == "vr_point_budget"@ {
            Some(Value::Int(settings.vr_point_budget as i64))
        } else if key == "mobile_point_budget"@ {
            Some(Value::Int(settings.mobile_point_budget as i64))
        } else if key == "desktop_cluster_threshold"@ {
            Some(Value::Int(settings.desktop_cluster_threshold as i64))
        } else if key == "allow_compositor"@ {
            Some(Value::Bool(settings.allow_compositor))
        } else if key == "target_hint"@ {
            Some(Value::Text(settings.target_hint))
        } else if key == "profile"@ {
            Some(Value::Text(settings.profile))
        } else {
            None::<Value>
        }),
{
    let e0 = Seq::<Entry>::empty();
    lookup_after_set(e0, "profile"@, Value::Text(settings.profile), key);
    let e1 = with_entry(e0, "profile"@, Value::Text(settings.profile));
    lookup_after_set(e1, "target_hint"@, Value::Text(settings.target_hint), key);
    let e2 = with_entry(e1, "target_hint"@, Value::Text(settings.target_hint));
    lookup_after_set(e2, "allow_compositor"@, Value::Bool(settings.allow_compositor), key);
    let e3 = with_entry(e2, "allow_compositor"@, Value::Bool(settings.allow_compositor));
    lookup_after_set(
        e3,
        "desktop_cluster_threshold"@,
        Value::Int(settings.desktop_cluster_threshold as i64),
        key,
    );
    let e4 = with_entry(
        e3,
        "desktop_cluster_threshold"@,
        Value::Int(settings.desktop_cluster_threshold as i64),
    );
    lookup_after_set(
        e4,
        "mobile_point_budget"@,
        Value::Int(settings.mobile_point_budget as i64),
        key,
    );
    let e5 = with_entry(
        e4,
        "mobile_point_budget"@,
        Value::Int(settings.mobile_point_budget as i64),
    );
    lookup_after_set(e5, "vr_point_budget"@, Value::Int(settings.vr_point_budget as i64), key);
}

/// The dictionary of backend settings holds every one of them under its name.
pub proof fn settings_tell_every_field(settings: BackendView)
    ensures
        lookup(backend_entries(settings), "profile"@) == Some(Value::Text(settings.profile)),
        lookup(backend_entries(settings), "target_hint"@) == Some(
            Value::Text(settings.target_hint),
        ),
        lookup(backend_entries(settings), "allow_compositor"@) == Some(
            Value::Bool(settings.allow_compositor),
        ),
        lookup(backend_entries(settings), "desktop_cluster_threshold"@) == Some(
            Value::Int(settings.desktop_cluster_threshold as i64),
        ),
        lookup(backend_entries(settings), "mobile_point_budget"@) == Some(
            Value::Int(settings.mobile_point_budget as i64),
        ),
        lookup(backend_entries(settings), "vr_point_budget"@) == Some(
            Value::Int(settings.vr_point_budget as i64),
        ),
{
    reveal_strlit("profile");
    assert("profile"@.len() == 7);
    reveal_strlit("target_hint");
    assert("target_hint"@.len() == 11);
    reveal_strlit("allow_compositor");
    assert("allow_compositor"@.len() == 16);
    reveal_strlit("desktop_cluster_threshold");
    assert("desktop_cluster_threshold"@.len() == 25);
    reveal_strlit("mobile_point_budget");
    assert("mobile_point_budget"@.len() == 19);
    reveal_strlit("vr_point_budget");
    assert("vr_point_budget"@.len() == 15);
    lemma_backend_lookup(settings, "profile"@);
    lemma_backend_lookup(settings, "target_hint"@);
    lemma_backend_lookup(settings, "allow_compositor"@);
    lemma_backend_lookup(settings, "desktop_cluster_threshold"@);
    lemma_backend_lookup(settings, "mobile_point_budget"@);
    lemma_backend_lookup(settings, "vr_point_budget"@);
}

proof fn lemma_packet_lookup(packet: PacketView, key: Seq<char>)
    ensures
        lookup(packet_entries(packet), key) == (if key == "cpu_mesh_expansion_allowed"@ {
            Some(Value::Bool(false))
        } else if key == "local_aabb"@ {
            Some(Value::Bounds(packet.local_aabb))
        } else if key == "status"@ {
            Some(Value::Text(packet.status))
        } else if key == "pipeline"@ {
            Some(Value::Text(packet.pipeline))
        } else if key == "upload_format"@ {
            Some(Value::Text(packet.upload_format))
        } else if key == "payload_layout"@ {
            Some(Value::Text(packet.payload_layout))
        } else if key == "payload_byte_len"@ {
            Some(Value::Int(packet.payload_byte_len))
        } else if key == "point_count"@ {
            Some(Value::Int(packet.point_count as i64))
        } else if key == "revision"@ {
            Some(Value::Int(packet.revision))
        } else {
            None::<Value>
        }),
{
    let e0 = Seq::<Entry>::empty();
    lookup_after_set(e0, "revision"@, Value::Int(packet.revision), key);
    let e1 = with_entry(e0, "revision"@, Value::Int(packet.revision));
    lookup_after_set(e1, "point_count"@, Value::Int(packet.point_count as i64), key);
    let e2 = with_entry(e1, "point_count"@, Value::Int(packet.point_count as i64));
    lookup_after_set(e2, "payload_byte_len"@, Value::Int(packet.payload_byte_len), key);
    let e3 = with_entry(e2, "payload_byte_len"@, Value::Int(packet.payload_byte_len));
    lookup_after_set(e3, "payload_layout"@, Value::Text(packet.payload_layout), key);
    let e4 = with_entry(e3, "payload_layout"@, Value::Text(packet.payload_layout));
    lookup_after_set(e4, "upload_format"@, Value::Text(packet.upload_format), key);
    let e5 = with_entry(e4, "upload_format"@, Value::Text(packet.upload_format));
    lookup_after_set(e5, "pipeline"@, Value::Text(packet.pipeline), key);
    let e6 = with_entry(e5, "pipeline"@, Value::Text(packet.pipeline));
    lookup_after_set(e6, "status"@, Value::Text(packet.status), key);
    let e7 = with_entry(e6, "status"@, Value::Text(packet.status));
    lookup_after_set(e7, "local_aabb"@, Value::Bounds(packet.local_aabb), key);
    let e8 = with_entry(e7, "local_aabb"@, Value::Bounds(packet.local_aabb));
    lookup_after_set(e8, "cpu_mesh_expansion_allowed"@, Value::Bool(false), key);
}

/// The dictionary of a packet holds every field under its name.
pub proof fn packets_tell_every_field(packet: PacketView)
    ensures
        lookup(packet_entries(packet), "revision"@) == Some(Value::Int(packet.revision)),
        lookup(packet_entries(packet), "point_count"@) == Some(
            Value::Int(packet.point_count as i64),
        ),
        lookup(packet_entries(packet), "payload_byte_len"@) == Some(
            Value::Int(packet.payload_byte_len),
        ),
        lookup(packet_entries(packet), "payload_layout"@) == Some(
            Value::Text(packet.payload_layout),
        ),
        lookup(packet_entries(packet), "upload_format"@) == Some(Value::Text(packet.upload_format)),
        lookup(packet_entries(packet), "pipeline"@) == Some(Value::Text(packet.pipeline)),
        lookup(packet_entries(packet), "status"@) == Some(Value::Text(packet.status)),
        lookup(packet_entries(packet), "local_aabb"@) == Some(Value::Bounds(packet.local_aabb)),
        lookup(packet_entries(packet), "cpu_mesh_expansion_allowed"@) == Some(Value::Bool(false)),
{
    reveal_strlit("revision");
    assert("revision"@.len() == 8);
    reveal_strlit("point_count");
    assert("point_count"@.len() == 11);
    reveal_strlit("payload_byte_len");
    assert("payload_byte_len"@.len() == 16);
    reveal_strlit("payload_layout");
    assert("payload_layout"@.len() == 14);
    reveal_strlit("upload_format");
    assert("upload_format"@.len() == 13);
    reveal_strlit("pipeline");
    assert("pipeline"@.len() == 8);
    reveal_strlit("status");
    assert("status"@.len() == 6);
    reveal_strlit("local_aabb");
    assert("local_aabb"@.len() == 10);
    reveal_strlit("cpu_mesh_expansion_allowed");
    assert("cpu_mesh_expansion_allowed"@.len() == 26);
    assert("revision"@[0] != "pipeline"@[0]);
    lemma_packet_lookup(packet, "revision"@);
    lemma_packet_lookup(packet, "point_count"@);
    lemma_packet_lookup(packet, "payload_byte_len"@);
    lemma_packet_lookup(packet, "payload_layout"@);
    lemma_packet_lookup(packet, "upload_format"@);
    lemma_packet_lookup(packet, "pipeline"@);
    lemma_packet_lookup(packet, "status"@);
    lemma_packet_lookup(packet, "local_aabb"@);
    lemma_packet_lookup(packet, "cpu_mesh_expansion_allowed"@);
}

proof fn lemma_upload_lookup(upload: UploadView, key: Seq<char>)
    ensures
        lookup(upload_entries(upload), key) == (if key == "pipeline"@ {
            Some(Value::Text(upload.packet.pipeline))
        } else if key == "upload_format"@ {
            Some(Value::Text(upload.packet.upload_format))
        } else if key == "point_count"@ {
            Some(Value::Int(upload.packet.point_count as i64))
        } else if key == "byte_len"@ {
            Some(Value::Int(upload.byte_len as i64))
        } else if key == "byte_offset"@ {
            Some(Value::Int(upload.byte_offset as i64))
        } else if key == "revision"@ {
            Some(Value::Int(upload.packet.revision))
        } else if key == "handle"@ {
            Some(Value::Int(upload.handle))
        } else {
            None::<Value>
        }),
{
    let e0 = Seq::<Entry>::empty();
    lookup_after_set(e0, "handle"@, Value::Int(upload.handle), key);
    let e1 = with_entry(e0, "handle"@, Value::Int(upload.handle));
    lookup_after_set(e1, "revision"@, Value::Int(upload.packet.revision), key);
    let e2 = with_entry(e1, "revision"@, Value::Int(upload.packet.revision));
    lookup_after_set(e2, "byte_offset"@, Value::Int(upload.byte_offset as i64), key);
    let e3 = with_entry(e2, "byte_offset"@, Value::Int(upload.byte_offset as i64));
    lookup_after_set(e3, "byte_len"@, Value::Int(upload.byte_len as i64), key);
    let e4 = with_entry(e3, "byte_len"@, Value::Int(upload.byte_len as i64));
    lookup_after_set(e4, "point_count"@, Value::Int(upload.packet.point_count as i64), key);
    let e5 = with_entry(e4, "point_count"@, Value::Int(upload.packet.point_count as i64));
    lookup_after_set(e5, "upload_format"@, Value::Text(upload.packet.upload_format), key);
    let e6 = with_entry(e5, "upload_format"@, Value::Text(upload.packet.upload_format));
    lookup_after_set(e6, "pipeline"@, Value::Text(upload.packet.pipeline), key);
}

/// The dictionary of an upload holds every field under its name.
pub proof fn uploads_tell_every_field(upload: UploadView)
    ensures
        lookup(upload_entries(upload), "handle"@) == Some(Value::Int(upload.handle)),
        lookup(upload_entries(upload), "revision"@) == Some(Value::Int(upload.packet.revision)),
        lookup(upload_entries(upload), "byte_offset"@) == Some(
            Value::Int(upload.byte_offset as i64),
        ),
        lookup(upload_entries(upload), "byte_len"@) == Some(Value::Int(upload.byte_len as i64)),
        lookup(upload_entries(upload), "point_count"@) == Some(
            Value::Int(upload.packet.point_count as i64),
        ),
        lookup(upload_entries(upload), "upload_format"@) == Some(
            Value::Text(upload.packet.upload_format),
        ),
        lookup(upload_entries(upload), "pipeline"@) == Some(Value::Text(upload.packet.pipeline)),
{
    reveal_strlit("handle");
    assert("handle"@.len() == 6);
    reveal_strlit("revision");
    assert("revision"@.len() == 8);
    reveal_strlit("byte_offset");
    assert("byte_offset"@.len() == 11);
    reveal_strlit("byte_len");
    assert("byte_len"@.len() == 8);
    reveal_strlit("point_count");
    assert("point_count"@.len() == 11);
    reveal_strlit("upload_format");
    assert("upload_format"@.len() == 13);
    reveal_strlit("pipeline");
    assert("pipeline"@.len() == 8);
    assert("revision"@[0] != "byte_len"@[0]);
    assert("byte_offset"@[0] != "point_count"@[0]);
    assert("revision"@[0] != "pipeline"@[0]);
    assert("byte_len"@[0] != "pipeline"@[0]);
    lemma_upload_lookup(upload, "handle"@);
    lemma_upload_lookup(upload, "revision"@);
    lemma_upload_lookup(upload, "byte_offset"@);
    lemma_upload_lookup(upload, "byte_len"@);
    lemma_upload_lookup(upload, "point_count"@);
    lemma_upload_lookup(upload, "upload_format"@);
    lemma_upload_lookup(upload, "pipeline"@);
}

proof fn lemma_stats_lookup(manager: ManagerView, key: Seq<char>)
    ensures
        lookup(stats_entries(manager), key) == (if key == "cpu_mesh_expansion_allowed"@ {
            Some(Value::Bool(false))
        } else if key == "max_upload_chunk_bytes"@ {
            Some(Value::Int(manager.max_upload_chunk_bytes))
        } else if key == "total_payload_byte_len"@ {
            Some(Value::Int(total_bytes(manager.packets, manager.packets.len()) as i64))
        } else if key == "total_point_count"@ {
            Some(Value::Int(total_points(manager.packets, manager.packets.len()) as i64))
        } else if key == "unsupported_count"@ {
            Some(Value::Int(count_with_status(manager.packets, "unsupported"@, manager.packets.len()) as i64))
        } else if key == "pending_upload_count"@ {
            Some(Value::Int(count_with_status(manager.packets, "pending_upload"@, manager.packets.len()) as i64))
        } else if key == "packet_count"@ {
            Some(Value::Int(manager.packets.len() as i64))
        } else if key == "backend_status"@ {
            Some(Value::Text("staging_only"@))
        } else {
            None::<Value>
        }),
{
    let e0 = Seq::<Entry>::empty();
    lookup_after_set(e0, "backend_status"@, Value::Text("staging_only"@), key);
    let e1 = with_entry(e0, "backend_status"@, Value::Text("staging_only"@));
    lookup_after_set(e1, "packet_count"@, Value::Int(manager.packets.len() as i64), key);
    let e2 = with_entry(e1, "packet_count"@, Value::Int(manager.packets.len() as i64));
    lookup_after_set(
        e2,
        "pending_upload_count"@,
        Value::Int(count_with_status(manager.packets, "pending_upload"@, manager.packets.len()) as i64),
        key,
    );
    let e3 = with_entry(
        e2,
        "pending_upload_count"@,
        Value::Int(count_with_status(manager.packets, "pending_upload"@, manager.packets.len()) as i64),
    );
    lookup_after_set(
        e3,
        "unsupported_count"@,
        Value::Int(count_with_status(manager.packets, "unsupported"@, manager.packets.len()) as i64),
        key,
    );
    let e4 = with_entry(
        e3,
        "unsupported_count"@,
        Value::Int(count_with_status(manager.packets, "unsupported"@, manager.packets.len()) as i64),
    );
    lookup_after_set(
        e4,
        "total_point_count"@,
        Value::Int(total_points(manager.packets, manager.packets.len()) as i64),
        key,
    );
    let e5 = with_entry(
        e4,
        "total_point_count"@,
        Value::Int(total_points(manager.packets, manager.packets.len()) as i64),
    );
    lookup_after_set(
        e5,
        "total_payload_byte_len"@,
        Value::Int(total_bytes(manager.packets, manager.packets.len()) as i64),
        key,
    );
    let e6 = with_entry(
        e5,
        "total_payload_byte_len"@,
        Value::Int(total_bytes(manager.packets, manager.packets.len()) as i64),
    );
    lookup_after_set(
        e6,
        "max_upload_chunk_bytes"@,
        Value::Int(manager.max_upload_chunk_bytes),
        key,
    );
    let e7 = with_entry(e6, "max_upload_chunk_bytes"@, Value::Int(manager.max_upload_chunk_bytes));
    lookup_after_set(e7, "cpu_mesh_expansion_allowed"@, Value::Bool(false), key);
}

/// The dictionary of a manager holds every number under its name.
pub proof fn stats_tell_every_number(manager: ManagerView)
    ensures
        lookup(stats_entries(manager), "backend_status"@) == Some(Value::Text("staging_only"@)),
        lookup(stats_entries(manager), "packet_count"@) == Some(
            Value::Int(manager.packets.len() as i64),
        ),
        lookup(stats_entries(manager), "pending_upload_count"@) == Some(
            Value::Int(count_with_status(manager.packets, "pending_upload"@, manager.packets.len()) as i64),
        ),
        lookup(stats_entries(manager), "unsupported_count"@) == Some(
            Value::Int(count_with_status(manager.packets, "unsupported"@, manager.packets.len()) as i64),
        ),
        lookup(stats_entries(manager), "total_point_count"@) == Some(
            Value::Int(total_points(manager.packets, manager.packets.len()) as i64),
        ),
        lookup(stats_entries(manager), "total_payload_byte_len"@) == Some(
            Value::Int(total_bytes(manager.packets, manager.packets.len()) as i64),
        ),
        lookup(stats_entries(manager), "max_upload_chunk_bytes"@) == Some(
            Value::Int(manager.max_upload_chunk_bytes),
        ),
        lookup(stats_entries(manager), "cpu_mesh_expansion_allowed"@) == Some(Value::Bool(false)),
{
    reveal_strlit("backend_status");
    assert("backend_status"@.len() == 14);
    reveal_strlit("packet_count");
    assert("packet_count"@.len() == 12);
    reveal_strlit("pending_upload_count");
    assert("pending_upload_count"@.len() == 20);
    reveal_strlit("unsupported_count");
    assert("unsupported_count"@.len() == 17);
    reveal_strlit("total_point_count");
    assert("total_point_count"@.len() == 17);
    reveal_strlit("total_payload_byte_len");
    assert("total_payload_byte_len"@.len() == 22);
    reveal_strlit("max_upload_chunk_bytes");
    assert("max_upload_chunk_bytes"@.len() == 22);
    reveal_strlit("cpu_mesh_expansion_allowed");
    assert("cpu_mesh_expansion_allowed"@.len() == 26);
    assert("unsupported_count"@[0] != "total_point_count"@[0]);
    assert("total_payload_byte_len"@[0] != "max_upload_chunk_bytes"@[0]);
    lemma_stats_lookup(manager, "backend_status"@);
    lemma_stats_lookup(manager, "packet_count"@);
    lemma_stats_lookup(manager, "pending_upload_count"@);
    lemma_stats_lookup(manager, "unsupported_count"@);
    lemma_stats_lookup(manager, "total_point_count"@);
    lemma_stats_lookup(manager, "total_payload_byte_len"@);
    lemma_stats_lookup(manager, "max_upload_chunk_bytes"@);
    lemma_stats_lookup(manager, "cpu_mesh_expansion_allowed"@);
}

proof fn lemma_profile_lookup(settings: ProfileView, key: Seq<char>)
    ensures
        lookup(profile_entries(settings), key) == (if key == "splat_depth_mode"@ {
            Some(Value::Text(settings.splat_depth_mode))
        } else if key == "vr_view_basis"@ {
            Some(Value::Text(settings.vr_view_basis))
        } else if key == "sh_degree"@ {
            Some(Value::Int(settings.sh_degree as i64))
        } else if key == "budget"@ {
            Some(Value::Int(settings.budget as i64))
        } else if key == "target_hint"@ {
            Some(Value::Text(settings.target_hint))
        } else {
            None::<Value>
        }),
{
    let e0 = Seq::<Entry>::empty();
    lookup_after_set(e0, "target_hint"@, Value::Text(settings.target_hint), key);
    let e1 = with_entry(e0, "target_hint"@, Value::Text(settings.target_hint));
    lookup_after_set(e1, "budget"@, Value::Int(settings.budget as i64), key);
    let e2 = with_entry(e1, "budget"@, Value::Int(settings.budget as i64));
    lookup_after_set(e2, "sh_degree"@, Value::Int(settings.sh_degree as i64), key);
    let e3 = with_entry(e2, "sh_degree"@, Value::Int(settings.sh_degree as i64));
    lookup_after_set(e3, "vr_view_basis"@, Value::Text(settings.vr_view_basis), key);
    let e4 = with_entry(e3, "vr_view_basis"@, Value::Text(settings.vr_view_basis));
    lookup_after_set(e4, "splat_depth_mode"@, Value::Text(settings.splat_depth_mode), key);
}

/// The dictionary of a profile holds every setting under its name.
pub proof fn profiles_tell_every_setting(settings: ProfileView)
    ensures
        lookup(profile_entries(settings), "target_hint"@) == Some(
            Value::Text(settings.target_hint),
        ),
        lookup(profile_entries(settings), "budget"@) == Some(Value::Int(settings.budget as i64)),
        lookup(profile_entries(settings), "sh_degree"@) == Some(
            Value::Int(settings.sh_degree as i64),
        ),
        lookup(profile_entries(settings), "vr_view_basis"@) == Some(
            Value::Text(settings.vr_view_basis),
        ),
        lookup(profile_entries(settings), "splat_depth_mode"@) == Some(
            Value::Text(settings.splat_depth_mode),
        ),
{
    reveal_strlit("target_hint");
    assert("target_hint"@.len() == 11);
    reveal_strlit("budget");
    assert("budget"@.len() == 6);
    reveal_strlit("sh_degree");
    assert("sh_degree"@.len() == 9);
    reveal_strlit("vr_view_basis");
    assert("vr_view_basis"@.len() == 13);
    reveal_strlit("splat_depth_mode");
    assert("splat_depth_mode"@.len() == 16);
    lemma_profile_lookup(settings, "target_hint"@);
    lemma_profile_lookup(settings, "budget"@);
    lemma_profile_lookup(settings, "sh_degree"@);
    lemma_profile_lookup(settings, "vr_view_basis"@);
    lemma_profile_lookup(settings, "splat_depth_mode"@);
}

/// What is given under the name of a setting is given for that setting.
pub proof fn settings_are_given_by_name(entries: Seq<Entry>)
    ensures
        ({
            let given = given_settings(entries);
            &&& given.target_hint == text_under(entries, "target_hint"@)
            &&& given.budget == int_under(entries, "budget"@)
            &&& given.sh_degree == int_under(entries, "sh_degree"@)
            &&& given.vr_view_basis == text_under(entries, "vr_view_basis"@)
            &&& given.splat_depth_mode == text_under(entries, "splat_depth_mode"@)
        }),
{
}

/// The current settings of a node are those that it shows the cloud with.
pub proof fn current_settings_are_those_in_use(node: NodeView)
    ensures
        ({
            let current = current_settings(node);
            &&& current.target_hint == backend_of(node).target_hint
            &&& current.budget == cloud_of(node).max_preview_splats
            &&& current.sh_degree == cloud_of(node).sh_degree
            &&& current.vr_view_basis == "per_eye"@ <==> backend_of(node).per_eye
            &&& current.splat_depth_mode == "center"@ <==> backend_of(node).center_depth
        }),
{
    modes_are_named(backend_of(node).per_eye, backend_of(node).center_depth);
}

/// Where a node is bound to a cloud and settings, its model tells them with its state.
pub proof fn model_tells_the_cloud_and_the_settings(node: NodeView)
    ensures
        lookup(model_entries(node), "is_bound"@) == Some(Value::Bool(node.is_bound)),
        lookup(model_entries(node), "backend_revision"@) == Some(Value::Int(node.revision)),
        lookup(model_entries(node), "metadata"@) == Some(
            Value::Dict(metadata_entries(metadata_of(node))),
        ),
        lookup(model_entries(node), "pipeline"@) == Some(Value::Text(pipeline_of(node))),
        node.backend_settings matches Some(settings) ==> lookup(
            model_entries(node),
            "backend_settings"@,
        ) == Some(Value::Dict(backend_entries(settings))),
        node.backend_settings is None ==> lookup(model_entries(node), "backend_settings"@) is None,
        node.asset matches Some(brief) ==> lookup(model_entries(node), "asset_payload_layout"@)
            == Some(Value::Text(brief.payload_layout)) && lookup(
            model_entries(node),
            "asset_fallback_mode"@,
        ) == Some(Value::Text(brief.fallback_mode)),
        node.asset is None ==> lookup(model_entries(node), "asset_payload_layout"@) is None
            && lookup(model_entries(node), "asset_fallback_mode"@) is None,
        lookup(model_entries(node), "preview_max_splats"@) == Some(
            Value::Int(cloud_of(node).max_preview_splats as i64),
        ),
        lookup(model_entries(node), "preview_max_splat_radius"@) == Some(
            single_value(cloud_of(node).max_preview_splat_radius),
        ),
        lookup(model_entries(node), "preview_scale_multiplier"@) == Some(
            single_value(cloud_of(node).gaussian_scale_multiplier),
        ),
{
    reveal_strlit("is_bound");
    assert("is_bound"@.len() == 8);
    reveal_strlit("runtime_visible");
    assert("runtime_visible"@.len() == 15);
    reveal_strlit("asset_ready");
    assert("asset_ready"@.len() == 11);
    reveal_strlit("backend_revision");
    assert("backend_revision"@.len() == 16);
    reveal_strlit("asset_point_count");
    assert("asset_point_count"@.len() == 17);
    reveal_strlit("backend_profile_hint");
    assert("backend_profile_hint"@.len() == 20);
    reveal_strlit("metadata");
    assert("metadata"@.len() == 8);
    reveal_strlit("pipeline");
    assert("pipeline"@.len() == 8);
    reveal_strlit("backend_settings");
    assert("backend_settings"@.len() == 16);
    reveal_strlit("asset_payload_layout");
    assert("asset_payload_layout"@.len() == 20);
    reveal_strlit("asset_fallback_mode");
    assert("asset_fallback_mode"@.len() == 19);
    reveal_strlit("preview_max_splats");
    assert("preview_max_splats"@.len() == 18);
    reveal_strlit("preview_max_splat_radius");
    assert("preview_max_splat_radius"@.len() == 24);
    reveal_strlit("preview_scale_multiplier");
    assert("preview_scale_multiplier"@.len() == 24);
    assert("is_bound"@[0] != "metadata"@[0]);
    assert("is_bound"@[0] != "pipeline"@[0]);
    assert("metadata"@[0] != "pipeline"@[0]);
    assert("backend_revision"@[8] != "backend_settings"@[8]);
    assert("backend_profile_hint"@[0] != "asset_payload_layout"@[0]);
    assert("preview_max_splat_radius"@[8] != "preview_scale_multiplier"@[8]);
    lemma_model_lookup(node, "is_bound"@);
    lemma_state_lookup(node, "is_bound"@);
    lemma_model_lookup(node, "backend_revision"@);
    lemma_state_lookup(node, "backend_revision"@);
    lemma_model_lookup(node, "metadata"@);
    lemma_state_lookup(node, "metadata"@);
    lemma_model_lookup(node, "pipeline"@);
    lemma_state_lookup(node, "pipeline"@);
    lemma_model_lookup(node, "backend_settings"@);
    lemma_state_lookup(node, "backend_settings"@);
    lemma_model_lookup(node, "asset_payload_layout"@);
    lemma_state_lookup(node, "asset_payload_layout"@);
    lemma_model_lookup(node, "asset_fallback_mode"@);
    lemma_state_lookup(node, "asset_fallback_mode"@);
    lemma_model_lookup(node, "preview_max_splats"@);
    lemma_state_lookup(node, "preview_max_splats"@);
    lemma_model_lookup(node, "preview_max_splat_radius"@);
    lemma_state_lookup(node, "preview_max_splat_radius"@);
    lemma_model_lookup(node, "preview_scale_multiplier"@);
    lemma_state_lookup(node, "preview_scale_multiplier"@);
}

proof fn lemma_model_lookup(node: NodeView, key: Seq<char>)
    ensures
        lookup(model_entries(node), key) == (if key == "preview_scale_multiplier"@ {
            Some(single_value(cloud_of(node).gaussian_scale_multiplier))
        } else if key == "preview_max_splat_radius"@ {
            Some(single_value(cloud_of(node).max_preview_splat_radius))
        } else if key == "preview_max_splats"@ {
            Some(Value::Int(cloud_of(node).max_preview_splats as i64))
        } else if key == "asset_fallback_mode"@ && node.asset is Some {
            Some(Value::Text(node.asset->0.fallback_mode))
        } else if key == "asset_payload_layout"@ && node.asset is Some {
            Some(Value::Text(node.asset->0.payload_layout))
        } else if key == "backend_settings"@ && node.backend_settings is Some {
            Some(Value::Dict(backend_entries(node.backend_settings->0)))
        } else if key == "pipeline"@ {
            Some(Value::Text(pipeline_of(node)))
        } else {
            lookup(state_entries(node), key)
        }),
{
    let e0 = state_entries(node);
    lookup_after_set(e0, "pipeline"@, Value::Text(pipeline_of(node)), key);
    let e1 = with_entry(e0, "pipeline"@, Value::Text(pipeline_of(node)));
    let e2 = match node.backend_settings {
        Some(settings) => {
            lookup_after_set(e1, "backend_settings"@, Value::Dict(backend_entries(settings)), key);
            with_entry(e1, "backend_settings"@, Value::Dict(backend_entries(settings)))
        },
        None => e1,
    };
    let e3 = match node.asset {
        Some(brief) => {
            let layout = Value::Text(brief.payload_layout);
            let mode = Value::Text(brief.fallback_mode);
            lookup_after_set(e2, "asset_payload_layout"@, layout, key);
            lookup_after_set(
                with_entry(e2, "asset_payload_layout"@, layout),
                "asset_fallback_mode"@,
                mode,
                key,
            );
            with_entry(with_entry(e2, "asset_payload_layout"@, layout), "asset_fallback_mode"@, mode)
        },
        None => e2,
    };
    let splats = Value::Int(cloud_of(node).max_preview_splats as i64);
    lookup_after_set(e3, "preview_max_splats"@, splats, key);
    let e4 = with_entry(e3, "preview_max_splats"@, splats);
    let radius = single_value(cloud_of(node).max_preview_splat_radius);
    lookup_after_set(e4, "preview_max_splat_radius"@, radius, key);
    let e5 = with_entry(e4, "preview_max_splat_radius"@, radius);
    let scale = single_value(cloud_of(node).gaussian_scale_multiplier);
    lookup_after_set(e5, "preview_scale_multiplier"@, scale, key);
}

/// Every change gives a node another revision, one higher as long as there is one.
pub proof fn changes_raise_the_revision(node: NodeView, reason: Seq<char>)
    ensures
        dirtied(node, reason).revision != node.revision,
        node.revision < i64::MAX ==> dirtied(node, reason).revision == node.revision + 1,
        node.profile_hint.len() > 0 ==> dirtied(node, reason).profile_hint == node.profile_hint,
        node.profile_hint.len() == 0 ==> dirtied(node, reason).profile_hint == reason,
        dirtied(node, reason).cloud_settings == node.cloud_settings,
        dirtied(node, reason).backend_settings == node.backend_settings,
        dirtied(node, reason).asset == node.asset,
        dirtied(node, reason).is_bound == node.is_bound,
        dirtied(node, reason).asset_ready == node.asset_ready,
        dirtied(node, reason).runtime_visible == node.runtime_visible,
{
}

/// A node never shows more splats than asked for or than there are, and shows that many where
/// there are.
pub proof fn shown_splats_are_asked_for(node: NodeView, max_splats: i32)
    requires
        points_of(node) >= 0,
    ensures
        ({
            let shown = cloud_of(showing(node, max_splats)).max_preview_splats;
            &&& 0 <= shown <= points_of(node)
            &&& max_splats >= 0 ==> shown <= max_splats
            &&& max_splats < 0 ==> shown == 0
            &&& 0 <= max_splats <= points_of(node) ==> shown == max_splats
            &&& max_splats >= points_of(node) ==> shown == points_of(node)
        }),
        cloud_of(showing(node, max_splats)) == (GaussianSplatCloudSettings {
            max_preview_splats: cloud_of(showing(node, max_splats)).max_preview_splats,
            ..cloud_of(node)
        }),
        showing(node, max_splats).asset == node.asset,
        showing(node, max_splats).backend_settings == node.backend_settings,
{
}

/// A degree that is set is one of the four that there are, the one asked for if that is one.
pub proof fn degrees_are_set_in_range(degree: i32)
    ensures
        0 <= degree_within(degree) <= 3,
        0 <= degree <= 3 ==> degree_within(degree) == degree,
        degree < 0 ==> degree_within(degree) == 0,
        degree > 3 ==> degree_within(degree) == 3,
{
}

/// A cloud that is bound is ready to be shown, with all its points, as far as the settings or the
/// profile of the node allow; nothing else that was set is lost.
pub proof fn bound_cloud_is_shown(node: NodeView, brief: BriefView)
    requires
        node.asset == Some(brief),
        brief.point_count >= 0,
    ensures
        ({
            let after = refreshed(node);
            let before = cloud_of(node);
            let shown = cloud_of(after).max_preview_splats;
            &&& after.is_bound && after.asset_ready
            &&& after.asset == Some(brief)
            &&& after.import_metadata is None
            &&& after.asset_point_count == brief.point_count
            &&& after.revision != node.revision
            &&& after.runtime_visible == node.runtime_visible
            &&& after.render_profile == node.render_profile
            &&& after.profile_budget == node.profile_budget
            &&& after.profile_sh_degree == node.profile_sh_degree
            &&& after.backend_settings == Some(backend_of(node))
            &&& 0 <= shown <= brief.point_count
            &&& node.profile_budget is None && 0 <= before.max_preview_splats <= brief.point_count
                ==> shown == before.max_preview_splats
            &&& node.profile_budget is None && before.max_preview_splats > brief.point_count
                ==> shown == brief.point_count
            &&& node.profile_budget matches Some(budget) ==> {
                &&& 0 <= budget <= brief.point_count ==> shown == budget
                &&& budget > brief.point_count ==> shown == brief.point_count
                &&& budget < 0 && 0 <= brief.adaptive_budget <= brief.point_count ==> shown
                    == brief.adaptive_budget
                &&& budget < 0 && brief.adaptive_budget > brief.point_count ==> shown
                    == brief.point_count
            }
            &&& node.profile_sh_degree is None ==> cloud_of(after).sh_degree == before.sh_degree
            &&& node.profile_sh_degree matches Some(degree) ==> (0 <= degree <= 3 ==> cloud_of(
                after,
            ).sh_degree == degree)
            &&& cloud_of(after) == (GaussianSplatCloudSettings {
                max_preview_splats: shown,
                sh_degree: cloud_of(after).sh_degree,
                ..before
            })
        }),
{
}

/// Without a cloud a node shows nothing and knows nothing, but its settings stay.
pub proof fn unbound_node_shows_nothing(node: NodeView)
    requires
        node.asset is None,
    ensures
        ({
            let after = refreshed(node);
            &&& !after.is_bound && !after.asset_ready
            &&& after.asset is None
            &&& after.asset_point_count == 0
            &&& after.revision != node.revision
            &&& after.cloud_settings == Some(cloud_of(node))
            &&& after.backend_settings == Some(backend_of(node))
            &&& after.profile_hint == "asset"@
        }),
{
}

/// A missing setting has its default: everything is shown, in full detail, on a desktop.
pub proof fn missing_settings_show_everything(node: NodeView)
    ensures
        node.cloud_settings is None ==> ({
            let settings = cloud_of(node);
            &&& settings.splat_visible && settings.render_enabled
            &&& settings.gaussian_scale_multiplier.bits == 0x3f80_0000
            &&& settings.max_preview_splat_radius.bits == 0x3ca3_d70a
            &&& settings.max_preview_splats == 0x7fff_ffff
            &&& settings.sh_degree == 3
            &&& settings.chunk_selection == ChunkSelection::Nearest
            &&& settings.view_priority_fov_degrees.bits == 0x4348_0000
            &&& settings.view_priority_full_distance.bits == 0x40a0_0000
            &&& settings.view_priority_target_budget == 800_000
            &&& settings.view_priority_min_lod_per_chunk == 256
            &&& !settings.xr_fixed_budget_enabled
            &&& settings.xr_fixed_splat_budget == 600_000
        }),
        node.backend_settings is None ==> ({
            let settings = backend_of(node);
            &&& settings.profile == "automatic"@
            &&& settings.target_hint == "desktop"@
            &&& !settings.allow_compositor
            &&& settings.desktop_cluster_threshold == 200_000
            &&& settings.mobile_point_budget == 131_072
            &&& settings.vr_point_budget == 262_144
            &&& !settings.per_eye && !settings.center_depth
        }),
        node.cloud_settings matches Some(settings) ==> cloud_of(node) == settings,
        node.backend_settings matches Some(settings) ==> backend_of(node) == settings,
{
}

/// What an import said of a cloud is known before what the cloud says of itself.
pub proof fn imports_say_it_first(node: NodeView)
    ensures
        node.import_metadata matches Some(metadata) ==> metadata_of(node) == metadata,
        node.import_metadata is None ==> (node.asset matches Some(brief) ==> metadata_of(node)
            == brief.metadata),
        node.import_metadata is None && node.asset is None ==> metadata_of(node).point_count == 0
            && metadata_of(node).kernel is None && metadata_of(node).validation_errors.len() == 0,
{
}

/// A profile that is given all its settings has the backend follow them at once, and the cloud as
/// far as it has splats; a node without a cloud remembers them for the next.
pub proof fn profiles_take_effect(node: NodeView, given: OverridesView)
    requires
        points_of(node) >= 0,
    ensures
        ({
            let after = profiled(node, given);
            let shown = cloud_of(after).max_preview_splats;
            &&& given.target_hint matches Some(name) ==> backend_of(after).target_hint == name
            &&& given.vr_view_basis matches Some(name) ==> (backend_of(after).per_eye <==> name
                == "per_eye"@)
            &&& given.splat_depth_mode matches Some(name) ==> (backend_of(after).center_depth
                <==> name == "center"@)
            &&& backend_of(after).profile == backend_of(node).profile
            &&& backend_of(after).allow_compositor == backend_of(node).allow_compositor
            &&& given.budget matches Some(budget) ==> after.profile_budget == Some(budget)
            &&& given.budget is None ==> after.profile_budget == node.profile_budget
            &&& given.sh_degree matches Some(degree) ==> after.profile_sh_degree == Some(degree)
            &&& given.sh_degree is None ==> after.profile_sh_degree == node.profile_sh_degree
            &&& node.asset matches Some(brief) ==> {
                &&& given.budget matches Some(budget) ==> {
                    &&& 0 <= budget <= brief.point_count ==> shown == budget
                    &&& budget > brief.point_count ==> shown == brief.point_count
                    &&& budget < 0 && 0 <= brief.adaptive_budget <= brief.point_count ==> shown
                        == brief.adaptive_budget
                }
                &&& given.sh_degree matches Some(degree) ==> (0 <= degree <= 3 ==> cloud_of(
                    after,
                ).sh_degree == degree)
            }
            &&& node.asset is None ==> cloud_of(after) == cloud_of(node)
            &&& after.revision != node.revision
            &&& after.asset == node.asset
            &&& after.render_profile == node.render_profile
        }),
{
}

/// The presets go from few splats without detail to all splats in full detail; only the one for
/// headsets follows from the extent of the cloud.
pub proof fn presets_grow()
    ensures
        preset(RenderProfile::Custom) is None,
        preset(RenderProfile::Low) matches Some(low) && preset(RenderProfile::Middle) matches Some(
            middle,
        ) && preset(RenderProfile::High) matches Some(high) && preset(RenderProfile::Xr) matches Some(
            headset,
        ) && {
            &&& low.budget == 150_000 && middle.budget == 500_000 && high.budget == 0x7fff_ffff
            &&& low.sh_degree == 0 && middle.sh_degree == 1 && high.sh_degree == 3
            &&& low.target_hint == "vr_safe"@ && middle.target_hint == "mobile"@
            &&& high.target_hint == "desktop"@ && headset.target_hint == "vr_safe"@
            &&& headset.budget == -1 && headset.sh_degree == 1
            &&& low.vr_view_basis == "head_center"@ && middle.vr_view_basis == "head_center"@
            &&& high.vr_view_basis == "head_center"@ && headset.vr_view_basis == "head_center"@
            &&& low.splat_depth_mode == "ray"@ && middle.splat_depth_mode == "ray"@
            &&& high.splat_depth_mode == "ray"@ && headset.splat_depth_mode == "center"@
        },
{
}

/// The budget for headsets grows with the extent of the cloud, between that of a small cloud, of
/// two units at most, and that of a large one, of thirty units at least.
pub proof fn adaptive_budgets_stay_in_range(extent: F32, interpolated: i32)
    ensures
        300_000 <= adaptive_budget(extent, interpolated) <= 800_000,
        extent.at_most(F32 { bits: 0x4000_0000 }) ==> adaptive_budget(extent, interpolated)
            == 300_000,
        (F32 { bits: 0x41f0_0000 }).at_most(extent) ==> adaptive_budget(extent, interpolated)
            == 800_000,
        (F32 { bits: 0x4000_0000 }).below(extent) && extent.below(F32 { bits: 0x41f0_0000 })
            && 300_000 <= interpolated <= 800_000 ==> adaptive_budget(extent, interpolated)
            == interpolated,
{
}

/// Editing what a preset settles for the backend ends the preset, and editing anything else does
/// not.
pub proof fn edited_settings_are_custom(node: NodeView, settings: BackendView)
    ensures
        ({
            let after = with_edited_backend(node, settings);
            let before = backend_of(node);
            let same = before.target_hint == settings.target_hint && before.per_eye
                == settings.per_eye && before.center_depth == settings.center_depth;
            &&& backend_of(after) == settings
            &&& !same ==> after.render_profile == RenderProfile::Custom && after.profile_budget
                is None && after.profile_sh_degree is None
            &&& same ==> after.render_profile == node.render_profile && after.profile_budget
                == node.profile_budget && after.profile_sh_degree == node.profile_sh_degree
            &&& after.cloud_settings == node.cloud_settings
            &&& after.asset == node.asset
            &&& after.revision == node.revision
        }),
        ({
            let bound = with_bound_backend(node, settings);
            &&& bound.backend_settings == Some(settings)
            &&& bound.revision != node.revision
            &&& bound.cloud_settings == node.cloud_settings
        }),
{
}

/// The pipeline is that of the kind of device that the profile names, and else of the one that the
/// target names. On a desktop a small cloud is drawn directly, and only a large one may go to the
/// compositor, where that is allowed.
pub proof fn pipeline_is_that_of_the_device(settings: BackendView, point_count: i32)
    ensures
        ({
            let choice = pipeline_choice(settings, point_count);
            let automatic = settings.profile != "desktop"@ && settings.profile != "mobile"@
                && settings.profile != "vr_safe"@;
            let mobile = settings.profile == "mobile"@ || automatic && settings.target_hint
                == "mobile"@;
            let headset = settings.profile == "vr_safe"@ || automatic && settings.target_hint
                == "vr_safe"@;
            let small = point_count < settings.desktop_cluster_threshold;
            &&& mobile <==> choice == "mobile_direct"@
            &&& headset <==> choice == "vr_safe_spatial"@
            &&& !mobile && !headset && small <==> choice == "desktop_direct"@
            &&& !mobile && !headset && !small && settings.allow_compositor <==> choice
                == "desktop_compositor"@
            &&& !mobile && !headset && !small && !settings.allow_compositor <==> choice
                == "desktop_clustered"@
        }),
{
    reveal_strlit("desktop");
    assert("desktop"@.len() == 7);
    reveal_strlit("mobile");
    assert("mobile"@.len() == 6);
    reveal_strlit("vr_safe");
    assert("vr_safe"@.len() == 7);
    reveal_strlit("mobile_direct");
    assert("mobile_direct"@.len() == 13);
    reveal_strlit("vr_safe_spatial");
    assert("vr_safe_spatial"@.len() == 15);
    reveal_strlit("desktop_direct");
    assert("desktop_direct"@.len() == 14);
    reveal_strlit("desktop_compositor");
    assert("desktop_compositor"@.len() == 18);
    reveal_strlit("desktop_clustered");
    assert("desktop_clustered"@.len() == 17);
    assert("desktop"@[0] != "vr_safe"@[0]);
}

/// The names of the view basis and of the depth mode can be read back.
pub proof fn modes_are_named(per_eye: bool, center_depth: bool)
    ensures
        view_basis_name(per_eye) == "per_eye"@ <==> per_eye,
        view_basis_name(per_eye) == "head_center"@ <==> !per_eye,
        depth_mode_name(center_depth) == "center"@ <==> center_depth,
        depth_mode_name(center_depth) == "ray"@ <==> !center_depth,
{
    reveal_strlit("per_eye");
    assert("per_eye"@.len() == 7);
    reveal_strlit("head_center");
    assert("head_center"@.len() == 11);
    reveal_strlit("center");
    assert("center"@.len() == 6);
    reveal_strlit("ray");
    assert("ray"@.len() == 3);
}

/// The ways to choose chunks go by their names; any other name stands for the nearest.
pub proof fn selections_go_by_name(name: Seq<char>)
    ensures
        named_selection(name) == ChunkSelection::Coverage <==> name == "coverage"@,
        named_selection(name) == ChunkSelection::ViewPriority <==> name == "view_priority"@,
        named_selection("nearest"@) == ChunkSelection::Nearest,
{
    reveal_strlit("coverage");
    assert("coverage"@.len() == 8);
    reveal_strlit("view_priority");
    assert("view_priority"@.len() == 13);
    reveal_strlit("nearest");
    assert("nearest"@.len() == 7);
}

/// Only splats that are laid out as numbers wait for an upload; any others are said to be
/// unsupported.
pub proof fn only_numbers_are_uploaded(layout: Seq<char>)
    ensures
        layout == "gsplat.interleaved.float32.v1"@ <==> status_of(layout) == "pending_upload"@,
        layout == "gsplat.interleaved.float32.v1"@ <==> upload_format_of(layout)
            == "interleaved_float32"@,
        layout != "gsplat.interleaved.float32.v1"@ <==> status_of(layout) == "unsupported"@,
        layout != "gsplat.interleaved.float32.v1"@ <==> upload_format_of(layout) == "unsupported"@,
{
    reveal_strlit("pending_upload");
    assert("pending_upload"@.len() == 14);
    reveal_strlit("unsupported");
    assert("unsupported"@.len() == 11);
    reveal_strlit("interleaved_float32");
    assert("interleaved_float32"@.len() == 19);
}

/// Whether an upload carries a byte of a packet.
pub open spec fn carries(upload: UploadView, entry: RegisteredView, byte: int) -> bool {
    upload.handle == entry.handle && upload.packet == entry.packet && upload.byte_offset <= byte
        < upload.byte_offset + upload.byte_len
}

proof fn lemma_upload_of_byte(entry: RegisteredView, max_bytes: int, byte: int) -> (k: int)
    requires
        max_bytes >= 1,
        entry.packet.status == "pending_upload"@,
        0 <= byte < entry.packet.payload_byte_len,
    ensures
        0 <= k < packet_uploads(entry, max_bytes).len(),
        carries(packet_uploads(entry, max_bytes)[k], entry, byte),
        forall|j: int|
            0 <= j < packet_uploads(entry, max_bytes).len() && j != k ==> !carries(
                #[trigger] packet_uploads(entry, max_bytes)[j],
                entry,
                byte,
            ),
{
    let uploads = packet_uploads(entry, max_bytes);
    let size = upload_size(entry.packet);
    let k = byte / max_bytes;
    uploads_cover_the_packet(entry, max_bytes);
    vstd::arithmetic::div_mod::lemma_fundamental_div_mod(byte, max_bytes);
    let n = uploads.len() as int;
    let last = n - 1;
    assert(last * max_bytes + max_bytes >= size && k * max_bytes <= byte < k * max_bytes
        + max_bytes && 0 <= k <= last) by (nonlinear_arith)
        requires
            byte == max_bytes * k + byte % max_bytes,
            0 <= byte % max_bytes < max_bytes,
            0 <= byte < size,
            max_bytes >= 1,
            last * max_bytes + max_bytes >= size,
    ;
    assert forall|j: int| 0 <= j < n && j != k implies !carries(#[trigger] uploads[j], entry, byte) by {
        assert(j < k ==> j * max_bytes + max_bytes <= k * max_bytes) by (nonlinear_arith)
            requires
                max_bytes >= 1,
        ;
        assert(j > k ==> k * max_bytes + max_bytes <= j * max_bytes) by (nonlinear_arith)
            requires
                max_bytes >= 1,
        ;
    }
    k
}

proof fn lemma_uploads_of(manager: ManagerView, n: nat, p: int, k: int) -> (u: int)
    requires
        0 <= p < n <= manager.packets.len(),
        0 <= k < packet_uploads(
            manager.packets[p],
            manager.max_upload_chunk_bytes as int,
        ).len(),
    ensures
        0 <= u < all_uploads(manager, n).len(),
        all_uploads(manager, n)[u] == packet_uploads(
            manager.packets[p],
            manager.max_upload_chunk_bytes as int,
        )[k],
    decreases n,
{
    let before = all_uploads(manager, (n - 1) as nat);
    if p == n - 1 {
        before.len() + k
    } else {
        lemma_uploads_of(manager, (n - 1) as nat, p, k)
    }
}

/// Every byte of every packet that waits is uploaded.
pub proof fn every_waiting_byte_is_uploaded(manager: ManagerView, p: int, byte: int)
    requires
        manager.max_upload_chunk_bytes >= 1,
        0 <= p < manager.packets.len(),
        manager.packets[p].packet.status == "pending_upload"@,
        0 <= byte < manager.packets[p].packet.payload_byte_len,
    ensures
        exists|u: int|
            0 <= u < all_uploads(manager, manager.packets.len()).len() && carries(
                #[trigger] all_uploads(manager, manager.packets.len())[u],
                manager.packets[p],
                byte,
            ),
{
    let max_bytes = manager.max_upload_chunk_bytes as int;
    let k = lemma_upload_of_byte(manager.packets[p], max_bytes, byte);
    let u = lemma_uploads_of(manager, manager.packets.len(), p, k);
    assert(carries(all_uploads(manager, manager.packets.len())[u], manager.packets[p], byte));
}

/// Whether an upload is one of a packet that waits: some of its bytes, and not more than allowed.
pub open spec fn is_part_of(upload: UploadView, entry: RegisteredView, max_bytes: int) -> bool {
    &&& entry.packet.status == "pending_upload"@
    &&& upload.handle == entry.handle
    &&& upload.packet == entry.packet
    &&& 1 <= upload.byte_len <= max_bytes
    &&& 0 <= upload.byte_offset
    &&& upload.byte_offset + upload.byte_len <= entry.packet.payload_byte_len
}

/// Nothing else is uploaded: every upload is one of a packet that waits.
pub proof fn uploads_are_of_waiting_packets(manager: ManagerView, n: nat, u: int)
    requires
        manager.max_upload_chunk_bytes >= 1,
        n <= manager.packets.len(),
        0 <= u < all_uploads(manager, n).len(),
    ensures
        exists|p: int|
            0 <= p < n && is_part_of(
                all_uploads(manager, n)[u],
                #[trigger] manager.packets[p],
                manager.max_upload_chunk_bytes as int,
            ),
    decreases n,
{
    let before = all_uploads(manager, (n - 1) as nat);
    let max_bytes = manager.max_upload_chunk_bytes as int;
    if u < before.len() {
        uploads_are_of_waiting_packets(manager, (n - 1) as nat, u);
        let p = choose|p: int|
            0 <= p < n - 1 && is_part_of(before[u], #[trigger] manager.packets[p], max_bytes);
        assert(is_part_of(all_uploads(manager, n)[u], manager.packets[p], max_bytes));
    } else {
        let entry = manager.packets[n - 1];
        let k = u - before.len();
        let uploads = packet_uploads(entry, max_bytes);
        uploads_cover_the_packet(entry, max_bytes);
        assert(uploads[k] == all_uploads(manager, n)[u]);
        assert(1 <= uploads[k].byte_len <= max_bytes);
        assert(k * max_bytes >= 0) by (nonlinear_arith)
            requires
                k >= 0,
                max_bytes >= 1,
        ;
        assert(is_part_of(all_uploads(manager, n)[u], manager.packets[n - 1], max_bytes));
    }
}

/// Packets without negative numbers can be added up where their totals fit.
pub proof fn totals_that_fit_can_be_told(packets: Seq<RegisteredView>)
    requires
        forall|i: int|
            0 <= i < packets.len() ==> (#[trigger] packets[i]).packet.point_count >= 0
                && packets[i].packet.payload_byte_len >= 0,
    ensures
        sums_fit(packets) <==> total_points(packets, packets.len()) <= i64::MAX && total_bytes(
            packets,
            packets.len(),
        ) <= i64::MAX,
{
    assert forall|n: nat| n <= packets.len() implies 0 <= #[trigger] total_points(packets, n)
        <= total_points(packets, packets.len()) && 0 <= total_bytes(packets, n) <= total_bytes(
        packets,
        packets.len(),
    ) by {
        lemma_totals_grow(packets, 0, n);
        lemma_totals_grow(packets, n, packets.len());
    }
}

proof fn lemma_totals_grow(packets: Seq<RegisteredView>, m: nat, n: nat)
    requires
        m <= n <= packets.len(),
        forall|i: int|
            0 <= i < packets.len() ==> (#[trigger] packets[i]).packet.point_count >= 0
                && packets[i].packet.payload_byte_len >= 0,
    ensures
        total_points(packets, m) <= total_points(packets, n),
        total_bytes(packets, m) <= total_bytes(packets, n),
    decreases n,
{
    if m < n {
        lemma_totals_grow(packets, m, (n - 1) as nat);
        assert(packets[n - 1].packet.point_count >= 0);
    }
}

/// The packets with a status are counted, each once.
pub proof fn packets_are_counted(packets: Seq<RegisteredView>, status: Seq<char>, n: nat)
    requires
        n <= packets.len(),
    ensures
        count_with_status(packets, status, n) == packets.take(n as int).filter(
            |entry: RegisteredView| entry.packet.status == status,
        ).len(),
    decreases n,
{
    reveal(Seq::filter);
    let has = |entry: RegisteredView| entry.packet.status == status;
    if n > 0 {
        packets_are_counted(packets, status, (n - 1) as nat);
        let first = packets.take(n as int);
        assert(first.drop_last() =~= packets.take(n - 1));
        assert(first.last() == packets[n - 1]);
    } else {
        assert(packets.take(0).len() == 0);
    }
}

/// Points and bytes add up: those of one packet are its own, and those of packets that are put
/// behind others come on top.
pub proof fn points_and_bytes_add_up(a: Seq<RegisteredView>, b: Seq<RegisteredView>, entry:
    RegisteredView)
    ensures
        total_points(seq![entry], 1) == entry.packet.point_count,
        total_bytes(seq![entry], 1) == entry.packet.payload_byte_len,
        total_points(a + b, (a + b).len()) == total_points(a, a.len()) + total_points(b, b.len()),
        total_bytes(a + b, (a + b).len()) == total_bytes(a, a.len()) + total_bytes(b, b.len()),
{
    reveal_with_fuel(total_points, 2);
    reveal_with_fuel(total_bytes, 2);
    lemma_totals_of_joined(a, b, 0, a.len());
    lemma_totals_of_joined(a, b, b.len(), a.len());
}

proof fn lemma_totals_of_joined(a: Seq<RegisteredView>, b: Seq<RegisteredView>, n: nat, m: nat)
    requires
        n <= b.len(),
        m <= a.len(),
    ensures
        total_points(a + b, m) == total_points(a, m),
        total_bytes(a + b, m) == total_bytes(a, m),
        total_points(a + b, a.len() + n) == total_points(a, a.len()) + total_points(b, n),
        total_bytes(a + b, a.len() + n) == total_bytes(a, a.len()) + total_bytes(b, n),
    decreases n, m,
{
    if m > 0 {
        lemma_totals_of_joined(a, b, n, (m - 1) as nat);
    }
    if n > 0 {
        lemma_totals_of_joined(a, b, (n - 1) as nat, a.len());
        assert((a + b)[a.len() + n - 1] == b[n - 1]);
    } else if m < a.len() {
        lemma_prefix_totals(a, b, a.len());
    }
}

proof fn lemma_prefix_totals(a: Seq<RegisteredView>, b: Seq<RegisteredView>, m: nat)
    requires
        m <= a.len(),
    ensures
        total_points(a + b, m) == total_points(a, m),
        total_bytes(a + b, m) == total_bytes(a, m),
    decreases m,
{
    if m > 0 {
        lemma_prefix_totals(a, b, (m - 1) as nat);
        assert((a + b)[m - 1] == a[m - 1]);
    }
}

} // verus!
