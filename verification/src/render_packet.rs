//! A cloud on its way to the renderer.

use crate::asset::GaussianSplatAsset;
use crate::extents::{is_empty_box, LocalBox};
use crate::import_state::PAYLOAD_LAYOUT_FLOAT32_V1;
use crate::text::text_eq;
use crate::variant::{with_entry, Dictionary, Entry, Value, Variant};
use vstd::prelude::*;
use vstd::string::*;

verus! {

/// There is nothing to upload.
pub const RENDER_STATUS_EMPTY: &'static str = "empty";

/// The splats wait for their upload.
pub const RENDER_STATUS_PENDING_UPLOAD: &'static str = "pending_upload";

/// The splats are uploaded as numbers, one splat after the other.
pub const RENDER_UPLOAD_INTERLEAVED_FLOAT32: &'static str = "interleaved_float32";

/// The splats cannot be uploaded.
pub const RENDER_UPLOAD_UNSUPPORTED: &'static str = "unsupported";

/// The pipeline of a packet that nothing was put in.
pub const PIPELINE_UNCONFIGURED: &'static str = "unconfigured";

/// A cloud on its way to the renderer.
#[derive(Debug)]
pub struct GaussianSplatRenderPacket {
    pub revision: i64,
    pub point_count: i32,
    pub payload_byte_len: i64,
    pub payload_layout: String,
    pub upload_format: String,
    pub pipeline: String,
    pub status: String,
    pub local_aabb: LocalBox,
}

/// The contents of a packet.
#[verifier::ext_equal]
pub ghost struct PacketView {
    pub revision: i64,
    pub point_count: i32,
    pub payload_byte_len: i64,
    pub payload_layout: Seq<char>,
    pub upload_format: Seq<char>,
    pub pipeline: Seq<char>,
    pub status: Seq<char>,
    pub local_aabb: LocalBox,
}

impl View for GaussianSplatRenderPacket {
    type V = PacketView;

    open spec fn view(&self) -> PacketView {
        PacketView {
            revision: self.revision,
            point_count: self.point_count,
            payload_byte_len: self.payload_byte_len,
            payload_layout: self.payload_layout@,
            upload_format: self.upload_format@,
            pipeline: self.pipeline@,
            status: self.status@,
            local_aabb: self.local_aabb,
        }
    }
}

/// Whether nothing was put into a packet.
pub open spec fn is_blank(packet: PacketView) -> bool {
    &&& packet.revision == 0
    &&& packet.point_count == 0
    &&& packet.payload_byte_len == 0
    &&& packet.payload_layout == ""@
    &&& packet.upload_format == RENDER_UPLOAD_UNSUPPORTED@
    &&& packet.pipeline == PIPELINE_UNCONFIGURED@
    &&& packet.status == RENDER_STATUS_EMPTY@
    &&& is_empty_box(packet.local_aabb)
}

/// How splats of the given layout are uploaded.
pub open spec fn upload_format_of(payload_layout: Seq<char>) -> Seq<char> {
    if payload_layout == PAYLOAD_LAYOUT_FLOAT32_V1@ {
        RENDER_UPLOAD_INTERLEAVED_FLOAT32@
    } else {
        RENDER_UPLOAD_UNSUPPORTED@
    }
}

/// The status of a packet with splats of the given layout.
pub open spec fn status_of(payload_layout: Seq<char>) -> Seq<char> {
    if payload_layout == PAYLOAD_LAYOUT_FLOAT32_V1@ {
        RENDER_STATUS_PENDING_UPLOAD@
    } else {
        RENDER_UPLOAD_UNSUPPORTED@
    }
}

/// The entries that describe a packet.
pub open spec fn packet_entries(packet: PacketView) -> Seq<Entry> {
    let e1 = with_entry(Seq::empty(), "revision"@, Value::Int(packet.revision));
    let e2 = with_entry(e1, "point_count"@, Value::Int(packet.point_count as i64));
    let e3 = with_entry(e2, "payload_byte_len"@, Value::Int(packet.payload_byte_len));
    let e4 = with_entry(e3, "payload_layout"@, Value::Text(packet.payload_layout));
    let e5 = with_entry(e4, "upload_format"@, Value::Text(packet.upload_format));
    let e6 = with_entry(e5, "pipeline"@, Value::Text(packet.pipeline));
    let e7 = with_entry(e6, "status"@, Value::Text(packet.status));
    let e8 = with_entry(e7, "local_aabb"@, Value::Bounds(packet.local_aabb));
    with_entry(e8, "cpu_mesh_expansion_allowed"@, Value::Bool(false))
}

/// How splats of the given layout are uploaded.
fn resolve_upload_format(payload_layout: &str) -> (format: &'static str)
    ensures
        format@ == upload_format_of(payload_layout@),
{
    if text_eq(payload_layout, PAYLOAD_LAYOUT_FLOAT32_V1) {
        RENDER_UPLOAD_INTERLEAVED_FLOAT32
    } else {
        RENDER_UPLOAD_UNSUPPORTED
    }
}

impl Default for GaussianSplatRenderPacket {
    fn default() -> (packet: GaussianSplatRenderPacket)
        ensures
            is_blank(packet@),
    {
        GaussianSplatRenderPacket {
            revision: 0,
            point_count: 0,
            payload_byte_len: 0,
            payload_layout: "".to_owned(),
            upload_format: RENDER_UPLOAD_UNSUPPORTED.to_owned(),
            pipeline: PIPELINE_UNCONFIGURED.to_owned(),
            status: RENDER_STATUS_EMPTY.to_owned(),
            local_aabb: LocalBox::default(),
        }
    }
}

impl GaussianSplatRenderPacket {
    /// A copy.
    pub fn duplicate(&self) -> (copy: GaussianSplatRenderPacket)
        ensures
            copy@ == self@,
    {
        GaussianSplatRenderPacket {
            revision: self.revision,
            point_count: self.point_count,
            payload_byte_len: self.payload_byte_len,
            payload_layout: self.payload_layout.clone(),
            upload_format: self.upload_format.clone(),
            pipeline: self.pipeline.clone(),
            status: self.status.clone(),
            local_aabb: self.local_aabb,
        }
    }

    /// Takes everything out of the packet.
    pub fn clear(&mut self)
        ensures
            is_blank(final(self)@),
    {
        *self = GaussianSplatRenderPacket::default();
    }

    /// The revision of the cloud.
    pub fn get_revision(&self) -> (revision: i64)
        ensures
            revision == self@.revision,
    {
        self.revision
    }

    /// How many points there are.
    pub fn get_point_count(&self) -> (point_count: i32)
        ensures
            point_count == self@.point_count,
    {
        self.point_count
    }

    /// How many bytes there are.
    pub fn get_payload_byte_len(&self) -> (len: i64)
        ensures
            len == self@.payload_byte_len,
    {
        self.payload_byte_len
    }

    /// The layout of the splats.
    pub fn get_payload_layout(&self) -> (layout: String)
        ensures
            layout@ == self@.payload_layout,
    {
        self.payload_layout.clone()
    }

    /// How the splats are uploaded.
    pub fn get_upload_format(&self) -> (format: String)
        ensures
            format@ == self@.upload_format,
    {
        self.upload_format.clone()
    }

    /// The pipeline that draws the cloud.
    pub fn get_pipeline(&self) -> (pipeline: String)
        ensures
            pipeline@ == self@.pipeline,
    {
        self.pipeline.clone()
    }

    /// The status of the packet.
    pub fn get_status(&self) -> (status: String)
        ensures
            status@ == self@.status,
    {
        self.status.clone()
    }

    /// The box around the splats.
    pub fn get_local_aabb(&self) -> (local_aabb: LocalBox)
        ensures
            local_aabb == self@.local_aabb,
    {
        self.local_aabb
    }

    /// Whether the splats can be uploaded.
    pub fn is_upload_supported(&self) -> (result: bool)
        ensures
            result == (self@.upload_format == RENDER_UPLOAD_INTERLEAVED_FLOAT32@),
    {
        text_eq(self.upload_format.as_str(), RENDER_UPLOAD_INTERLEAVED_FLOAT32)
    }

    /// A dictionary that describes the packet.
    pub fn export_packet(&self) -> (dict: Dictionary)
        ensures
            dict@ == packet_entries(self@),
    {
        let mut dict = Dictionary::new();
        dict.set("revision", Variant::Int(self.revision));
        dict.set("point_count", Variant::Int(self.point_count as i64));
        dict.set("payload_byte_len", Variant::Int(self.payload_byte_len));
        dict.set("payload_layout", Variant::Text(self.payload_layout.clone()));
        dict.set("upload_format", Variant::Text(self.upload_format.clone()));
        dict.set("pipeline", Variant::Text(self.pipeline.clone()));
        dict.set("status", Variant::Text(self.status.clone()));
        dict.set("local_aabb", Variant::Bounds(self.local_aabb));
        dict.set("cpu_mesh_expansion_allowed", Variant::Bool(false));
        dict
    }

    /// Puts a cloud into the packet.
    pub fn prepare_from_asset(&mut self, asset: &GaussianSplatAsset, pipeline: &str, revision: i64)
        ensures
            final(self)@ == (PacketView {
                revision,
                point_count: asset@.point_count,
                payload_byte_len: asset.payload.len() as i64,
                payload_layout: asset@.payload_layout,
                upload_format: upload_format_of(asset@.payload_layout),
                pipeline: pipeline@,
                status: status_of(asset@.payload_layout),
                local_aabb: asset@.local_aabb,
            }),
    {
        let payload_layout: String = asset.get_payload_layout();
        self.revision = revision;
        self.point_count = asset.get_point_count();
        self.payload_byte_len = asset.get_payload_byte_len();
        self.upload_format = resolve_upload_format(payload_layout.as_str()).to_owned();
        self.payload_layout = payload_layout;
        self.pipeline = pipeline.to_owned();
        proof {
            lemma_formats_differ();
        }
        self.status = if self.is_upload_supported() {
            RENDER_STATUS_PENDING_UPLOAD.to_owned()
        } else {
            RENDER_UPLOAD_UNSUPPORTED.to_owned()
        };
        self.local_aabb = asset.get_local_aabb();
    }
}

/// What can be uploaded and what cannot have different names.
proof fn lemma_formats_differ()
    ensures
        RENDER_UPLOAD_INTERLEAVED_FLOAT32@ != RENDER_UPLOAD_UNSUPPORTED@,
{
    reveal_strlit("interleaved_float32");
    reveal_strlit("unsupported");
    assert("interleaved_float32"@[0] == 'i');
    assert("unsupported"@[0] == 'u');
}

} // verus!
