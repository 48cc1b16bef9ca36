//! A splat cloud as it is kept: what is known of it, and its splats.

use crate::chunking::{
    is_partition, table_bounds, union_bounds, ChunkTable, POINT_STRIDE_FLOATS,
};
use crate::extents::{is_empty_box, LocalBox};
use crate::floats::F32;
use crate::gsplat_pack::layout::effective_stride;
use crate::gsplat_pack::GsplatPackIndex;
use crate::import_state::decode::DecodedSplatData;
use crate::import_state::{
    blank_metadata, dictionary_metadata, metadata_entries, summary_text, ImportedSplatMetadata,
    MetadataView, FALLBACK_NONE, PAYLOAD_LAYOUT_FLOAT32_V1, PAYLOAD_LAYOUT_V1,
};
use crate::text::{int_text, push_int, text_eq};
use crate::variant::Dictionary;
use crate::words::{bytes_floats, bytes_to_floats, float_bytes, floats_round_trip};
use vstd::prelude::*;
use vstd::string::*;
use vstd::utf8::encode_utf8;

verus! {

/// A splat cloud.
#[derive(Debug)]
pub struct GaussianSplatAsset {
    pub metadata: ImportedSplatMetadata,
    pub point_count: i32,
    pub payload: Vec<u8>,
    pub payload_layout: String,
    pub fallback_mode: String,
    pub local_aabb: LocalBox,
    /// How the payload is cut into chunks.
    pub chunk_table: Option<ChunkTable>,
    /// The highest degree, from 0 to 3, of the coefficients that the cloud has.
    pub sh_degree_available: i32,
    /// The pack that holds the splats where they are not in memory.
    pub pack_index: Option<GsplatPackIndex>,
}

/// The contents of a cloud.
#[verifier::ext_equal]
pub ghost struct AssetView {
    pub metadata: MetadataView,
    pub point_count: i32,
    pub payload: Seq<u8>,
    pub payload_layout: Seq<char>,
    pub fallback_mode: Seq<char>,
    pub local_aabb: LocalBox,
    pub chunk_table: Option<ChunkTable>,
    pub sh_degree_available: i32,
    pub pack_index: Option<GsplatPackIndex>,
}

impl View for GaussianSplatAsset {
    type V = AssetView;

    open spec fn view(&self) -> AssetView {
        AssetView {
            metadata: self.metadata@,
            point_count: self.point_count,
            payload: self.payload@,
            payload_layout: self.payload_layout@,
            fallback_mode: self.fallback_mode@,
            local_aabb: self.local_aabb,
            chunk_table: self.chunk_table,
            sh_degree_available: self.sh_degree_available,
            pack_index: self.pack_index,
        }
    }
}

/// `count`, or nothing where it is negative.
pub open spec fn no_less_than_zero(count: i32) -> i32 {
    if count < 0 {
        0
    } else {
        count
    }
}

/// A cloud after it was told what is known of it.
pub open spec fn with_metadata(asset: AssetView, metadata: MetadataView) -> AssetView {
    AssetView {
        metadata,
        point_count: no_less_than_zero(metadata.point_count),
        payload_layout: PAYLOAD_LAYOUT_V1@,
        fallback_mode: metadata.fallback_mode,
        ..asset
    }
}

/// What stands in for the splats of a cloud that could not be decoded.
pub open spec fn placeholder_text(metadata: MetadataView) -> Seq<char> {
    "layout="@ + PAYLOAD_LAYOUT_V1@ + "; points="@ + int_text(metadata.point_count as int)
        + "; fallback="@ + metadata.fallback_mode
}

/// The numbers per splat of a cloud.
pub open spec fn asset_stride(asset: AssetView) -> int {
    match asset.chunk_table {
        Some(table) => effective_stride(table.stride),
        None => POINT_STRIDE_FLOATS as int,
    }
}

/// The numbers that a payload holds, where it is one of numbers, and holds whole splats of the
/// given size.
pub open spec fn payload_numbers(asset: AssetView, stride: int) -> Option<Seq<F32>> {
    let values = bytes_floats(asset.payload);
    if asset.payload_layout == PAYLOAD_LAYOUT_FLOAT32_V1@ && values.len() as int % stride == 0 {
        Some(values)
    } else {
        None
    }
}

/// Some numbers of every splat, one run per splat.
pub open spec fn fields_of_splats(values: Seq<F32>, first: int, count: int) -> Seq<Seq<F32>> {
    Seq::new(
        values.len() / 18,
        |i: int| values.subrange(18 * i + first, 18 * i + first + count),
    )
}

/// `count`, or nothing where it is negative.
fn clip(count: i32) -> (result: i32)
    ensures
        result == no_less_than_zero(count),
{
    if count < 0 {
        0
    } else {
        count
    }
}

/// What stands in for the splats of a cloud that could not be decoded.
fn build_placeholder_payload(metadata: &ImportedSplatMetadata) -> (payload: Vec<u8>)
    ensures
        payload@ == encode_utf8(placeholder_text(metadata@)),
{
    let mut text: String = "layout=".to_owned();
    text.append(PAYLOAD_LAYOUT_V1);
    text.append("; points=");
    push_int(&mut text, metadata.point_count as i64);
    text.append("; fallback=");
    text.append(metadata.fallback_mode.as_str());
    assert(text@ =~= placeholder_text(metadata@));
    text.as_str().as_bytes_vec()
}

/// The bounds of the splats of a pack, if it has any.
pub fn pack_bounds(pack: &GsplatPackIndex) -> (bounds: Option<([F32; 3], [F32; 3])>)
    ensures
        ({
            let entries = Seq::new(pack.chunks@.len(), |i: int| pack.chunks@[i].entry);
            match bounds {
                Some(found) => union_bounds(entries) matches Some(wanted) && found.0@ == wanted.0@
                    && found.1@ == wanted.1@,
                None => union_bounds(entries) is None,
            }
        }),
{
    let table: ChunkTable = pack.chunk_table();
    table_bounds(&table)
}

impl Default for GaussianSplatAsset {
    fn default() -> (asset: GaussianSplatAsset)
        ensures
            asset@.metadata == blank_metadata(),
            asset@.point_count == 0,
            asset@.payload.len() == 0,
            asset@.payload_layout.len() == 0,
            asset@.fallback_mode.len() == 0,
            is_empty_box(asset@.local_aabb),
            asset@.chunk_table is None,
            asset@.sh_degree_available == 0,
            asset@.pack_index is None,
    {
        proof {
            reveal_strlit("");
        }
        GaussianSplatAsset {
            metadata: ImportedSplatMetadata::default(),
            point_count: 0,
            payload: Vec::new(),
            payload_layout: "".to_owned(),
            fallback_mode: "".to_owned(),
            local_aabb: LocalBox::default(),
            chunk_table: None,
            sh_degree_available: 0,
            pack_index: None,
        }
    }
}

impl GaussianSplatAsset {
    /// Forgets the cloud.
    pub fn clear(&mut self)
        ensures
            is_empty_box(final(self)@.local_aabb),
            final(self)@ == (AssetView {
                metadata: blank_metadata(),
                point_count: 0,
                payload: Seq::empty(),
                payload_layout: PAYLOAD_LAYOUT_V1@,
                fallback_mode: FALLBACK_NONE@,
                local_aabb: final(self)@.local_aabb,
                chunk_table: None,
                sh_degree_available: 0,
                pack_index: None,
            }),
    {
        self.metadata = ImportedSplatMetadata::default();
        self.point_count = 0;
        self.payload = Vec::new();
        self.payload_layout = PAYLOAD_LAYOUT_V1.to_owned();
        self.fallback_mode = FALLBACK_NONE.to_owned();
        self.local_aabb = LocalBox::default();
        self.chunk_table = None;
        self.sh_degree_available = 0;
        self.pack_index = None;
    }

    /// Takes over what is known of the cloud.
    pub fn apply_import_metadata(&mut self, metadata: Dictionary)
        ensures
            final(self)@ == with_metadata(old(self)@, dictionary_metadata(metadata@)),
    {
        self.metadata = ImportedSplatMetadata::from_dictionary(metadata);
        self.point_count = clip(self.metadata.point_count);
        self.payload_layout = PAYLOAD_LAYOUT_V1.to_owned();
        self.fallback_mode = self.metadata.fallback_mode.clone();
    }

    /// Takes over what is known of a cloud whose splats could not be decoded.
    pub fn initialize_from_import(&mut self, metadata: Dictionary)
        ensures
            is_empty_box(final(self)@.local_aabb),
            final(self)@ == (AssetView {
                payload: encode_utf8(placeholder_text(dictionary_metadata(metadata@))),
                local_aabb: final(self)@.local_aabb,
                ..with_metadata(old(self)@, dictionary_metadata(metadata@))
            }),
    {
        self.apply_import_metadata(metadata);
        self.payload = build_placeholder_payload(&self.metadata);
        self.local_aabb = LocalBox::default();
    }

    /// Takes over what is known of the cloud, and its splats.
    pub fn initialize_from_decoded(
        &mut self,
        metadata: Dictionary,
        payload: Vec<u8>,
        payload_layout: &str,
        local_aabb: LocalBox,
    )
        ensures
            final(self)@ == (AssetView {
                payload: payload@,
                payload_layout: payload_layout@,
                local_aabb,
                ..with_metadata(old(self)@, dictionary_metadata(metadata@))
            }),
    {
        self.apply_import_metadata(metadata);
        self.payload = payload;
        self.payload_layout = payload_layout.to_owned();
        self.local_aabb = local_aabb;
    }

    /// A dictionary with what is known of the cloud.
    pub fn export_import_metadata(&self) -> (dict: Dictionary)
        ensures
            dict@ == metadata_entries(self@.metadata),
    {
        self.metadata.to_dictionary()
    }

    /// One line about the cloud.
    pub fn get_metadata_summary(&self) -> (text: String)
        ensures
            text@ == summary_text(self@.metadata),
    {
        self.metadata.summary()
    }

    /// Sets how many points there are.
    pub fn set_point_count(&mut self, point_count: i32)
        ensures
            final(self)@ == (AssetView {
                point_count: no_less_than_zero(point_count),
                ..old(self)@
            }),
    {
        self.point_count = clip(point_count);
    }

    /// How many points there are.
    pub fn get_point_count(&self) -> (point_count: i32)
        ensures
            point_count == self@.point_count,
    {
        self.point_count
    }

    /// Sets the payload.
    pub fn set_payload(&mut self, payload: Vec<u8>)
        ensures
            final(self)@ == (AssetView { payload: payload@, ..old(self)@ }),
    {
        self.payload = payload;
    }

    /// The payload.
    pub fn get_payload(&self) -> (payload: &Vec<u8>)
        ensures
            payload@ == self@.payload,
    {
        &self.payload
    }

    /// How many bytes the payload has.
    pub fn get_payload_byte_len(&self) -> (len: i64)
        ensures
            len == self.payload.len() as i64,
    {
        self.payload.len() as i64
    }

    /// The layout of the payload.
    pub fn get_payload_layout(&self) -> (layout: String)
        ensures
            layout@ == self@.payload_layout,
    {
        self.payload_layout.clone()
    }

    /// What can be shown in place of the splats.
    pub fn get_fallback_mode(&self) -> (mode: String)
        ensures
            mode@ == self@.fallback_mode,
    {
        self.fallback_mode.clone()
    }

    /// Whether points can be shown in place of the splats.
    pub fn has_point_fallback(&self) -> (result: bool)
        ensures
            result == (self@.fallback_mode != FALLBACK_NONE@),
    {
        !text_eq(self.fallback_mode.as_str(), FALLBACK_NONE)
    }

    /// Sets the box around the splats.
    pub fn set_local_aabb(&mut self, local_aabb: LocalBox)
        ensures
            final(self)@ == (AssetView { local_aabb, ..old(self)@ }),
    {
        self.local_aabb = local_aabb;
    }

    /// The box around the splats.
    pub fn get_local_aabb(&self) -> (local_aabb: LocalBox)
        ensures
            local_aabb == self@.local_aabb,
    {
        self.local_aabb
    }

    /// The numbers of a payload that holds splats of the core layout.
    fn core_values(&self) -> (values: Option<Vec<F32>>)
        ensures
            match values {
                Some(values) => payload_numbers(self@, 18) == Some(values@),
                None => payload_numbers(self@, 18) is None,
            },
    {
        if !text_eq(self.payload_layout.as_str(), PAYLOAD_LAYOUT_FLOAT32_V1) {
            return None;
        }
        let values: Vec<F32> = bytes_to_floats(self.payload.as_slice());
        if values.len() % POINT_STRIDE_FLOATS != 0 {
            return None;
        }
        Some(values)
    }

    /// The centers of the splats; none where the payload is not one of whole core splats.
    pub fn extract_point_positions(&self) -> (positions: Vec<[F32; 3]>)
        ensures
            match payload_numbers(self@, 18) {
                Some(values) => {
                    let wanted = fields_of_splats(values, 0, 3);
                    &&& positions@.len() == wanted.len()
                    &&& forall|i: int|
                        0 <= i < wanted.len() ==> (#[trigger] positions@[i])@ == wanted[i]
                },
                None => positions@.len() == 0,
            },
    {
        let mut positions: Vec<[F32; 3]> = Vec::new();
        if let Some(values) = self.core_values() {
            let count: usize = values.len() / POINT_STRIDE_FLOATS;
            let ghost wanted = fields_of_splats(values@, 0, 3);
            let mut i: usize = 0;
            while i < count
                invariant
                    i <= count,
                    18 * count <= values.len(),
                    count == values@.len() / 18,
                    wanted == fields_of_splats(values@, 0, 3),
                    positions@.len() == i,
                    forall|j: int| 0 <= j < i ==> (#[trigger] positions@[j])@ == wanted[j],
                decreases count - i,
            {
                let at: usize = i * POINT_STRIDE_FLOATS;
                let position: [F32; 3] = [values[at], values[at + 1], values[at + 2]];
                assert(position@ =~= wanted[i as int]);
                positions.push(position);
                i = i + 1;
            }
        }
        positions
    }

    /// The colors of the splats; none where the payload is not one of whole core splats.
    pub fn extract_point_colors(&self) -> (colors: Vec<[F32; 4]>)
        ensures
            match payload_numbers(self@, 18) {
                Some(values) => {
                    let wanted = fields_of_splats(values, 14, 4);
                    &&& colors@.len() == wanted.len()
                    &&& forall|i: int|
                        0 <= i < wanted.len() ==> (#[trigger] colors@[i])@ == wanted[i]
                },
                None => colors@.len() == 0,
            },
    {
        let mut colors: Vec<[F32; 4]> = Vec::new();
        if let Some(values) = self.core_values() {
            let count: usize = values.len() / POINT_STRIDE_FLOATS;
            let ghost wanted = fields_of_splats(values@, 14, 4);
            let mut i: usize = 0;
            while i < count
                invariant
                    i <= count,
                    18 * count <= values.len(),
                    count == values@.len() / 18,
                    wanted == fields_of_splats(values@, 14, 4),
                    colors@.len() == i,
                    forall|j: int| 0 <= j < i ==> (#[trigger] colors@[j])@ == wanted[j],
                decreases count - i,
            {
                let at: usize = i * POINT_STRIDE_FLOATS + 14;
                let color: [F32; 4] = [values[at], values[at + 1], values[at + 2], values[at + 3]];
                assert(color@ =~= wanted[i as int]);
                colors.push(color);
                i = i + 1;
            }
        }
        colors
    }

    /// The numbers of the payload; none where it is empty, or not one of whole splats.
    pub fn payload_float_values(&self) -> (values: Option<Vec<F32>>)
        ensures
            match values {
                Some(values) => payload_numbers(self@, asset_stride(self@)) == Some(values@)
                    && values@.len() > 0,
                None => payload_numbers(self@, asset_stride(self@)) matches Some(values)
                    ==> values.len() == 0,
            },
    {
        if !text_eq(self.payload_layout.as_str(), PAYLOAD_LAYOUT_FLOAT32_V1) {
            return None;
        }
        let stride: usize = match &self.chunk_table {
            Some(table) => if table.stride < POINT_STRIDE_FLOATS {
                POINT_STRIDE_FLOATS
            } else {
                table.stride
            },
            None => POINT_STRIDE_FLOATS,
        };
        let values: Vec<F32> = bytes_to_floats(self.payload.as_slice());
        if values.len() == 0 || values.len() % stride != 0 {
            return None;
        }
        Some(values)
    }

    /// Whether the cloud was compressed.
    pub fn has_compression(&self) -> (result: bool)
        ensures
            result == self@.metadata.compression is Some,
    {
        self.metadata.compression.is_some()
    }

    /// The extension that the cloud was described by.
    pub fn get_source_extension(&self) -> (name: String)
        ensures
            name@ == self@.metadata.source_extension,
    {
        self.metadata.source_extension.clone()
    }

    /// Takes over decoded splats, with the box around them.
    pub fn apply_decoded_data(&mut self, decoded: DecodedSplatData, local_aabb: LocalBox)
        ensures
            final(self)@ == (AssetView {
                point_count: no_less_than_zero(decoded.point_count),
                payload: decoded.payload@,
                payload_layout: decoded.payload_layout@,
                local_aabb,
                chunk_table: decoded.chunk_table,
                sh_degree_available: decoded.sh_degree_available,
                pack_index: None,
                ..old(self)@
            }),
    {
        self.point_count = clip(decoded.point_count);
        self.payload = decoded.payload;
        self.payload_layout = decoded.payload_layout;
        self.local_aabb = local_aabb;
        self.chunk_table = decoded.chunk_table;
        self.sh_degree_available = decoded.sh_degree_available;
        self.pack_index = None;
    }

    /// Takes over a pack, with the box around its splats.
    pub fn apply_pack_index(
        &mut self,
        metadata: ImportedSplatMetadata,
        pack_index: GsplatPackIndex,
        local_aabb: LocalBox,
    )
        ensures
            final(self)@.chunk_table matches Some(table) && {
                &&& table.chunk_size == pack_index.chunk_size
                &&& table.grid_origin == pack_index.grid_origin
                &&& table.stride == pack_index.stride
                &&& table.entries@ == Seq::new(
                    pack_index.chunks@.len(),
                    |i: int| pack_index.chunks@[i].entry,
                )
            },
            final(self)@ == (AssetView {
                metadata: metadata@,
                point_count: pack_index.point_count as i32,
                payload: Seq::empty(),
                payload_layout: PAYLOAD_LAYOUT_FLOAT32_V1@,
                fallback_mode: FALLBACK_NONE@,
                local_aabb,
                chunk_table: final(self)@.chunk_table,
                sh_degree_available: pack_index.sh_degree_available,
                pack_index: Some(pack_index),
            }),
    {
        self.metadata = metadata;
        self.point_count = pack_index.point_count as i32;
        self.payload = Vec::new();
        self.payload_layout = PAYLOAD_LAYOUT_FLOAT32_V1.to_owned();
        self.fallback_mode = FALLBACK_NONE.to_owned();
        self.local_aabb = local_aabb;
        self.chunk_table = Some(pack_index.chunk_table());
        self.sh_degree_available = pack_index.sh_degree_available;
        self.pack_index = Some(pack_index);
    }

    /// How the payload is cut into chunks.
    pub fn chunk_table(&self) -> (table: Option<&ChunkTable>)
        ensures
            match table {
                Some(table) => self@.chunk_table == Some(*table),
                None => self@.chunk_table is None,
            },
    {
        self.chunk_table.as_ref()
    }

    /// The highest degree of the coefficients that the cloud has.
    pub fn sh_degree_available(&self) -> (degree: i32)
        ensures
            degree == self@.sh_degree_available,
    {
        self.sh_degree_available
    }

    /// The pack that holds the splats.
    pub fn pack_index(&self) -> (pack: Option<&GsplatPackIndex>)
        ensures
            match pack {
                Some(pack) => self@.pack_index == Some(*pack),
                None => self@.pack_index is None,
            },
    {
        self.pack_index.as_ref()
    }
}

/// A cloud that was cut into chunks gives back all of its numbers, whatever the size of its splats.
pub proof fn chunked_cloud_is_read_back(
    asset: AssetView,
    payload: Seq<F32>,
    chunk_size: F32,
    stride: usize,
    cells: Seq<[i32; 3]>,
    importance: Seq<F32>,
    out: Seq<F32>,
    table: ChunkTable,
    radii: Seq<F32>,
)
    requires
        is_partition(payload, chunk_size, stride, cells, importance, out, table, radii),
        asset.payload == float_bytes(out),
        asset.payload_layout == PAYLOAD_LAYOUT_FLOAT32_V1@,
        asset.chunk_table == Some(table),
    ensures
        payload_numbers(asset, asset_stride(asset)) == Some(out),
{
    floats_round_trip(out);
    let width = effective_stride(stride);
    vstd::arithmetic::div_mod::lemma_mod_multiples_basic(cells.len() as int, width);
}

} // verus!
