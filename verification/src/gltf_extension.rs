//! What the importer of scene files does about splat clouds.

use crate::asset::GaussianSplatAsset;
use crate::extents::LocalBox;
use crate::import_state::decode::DecodedSplatData;
use crate::import_state::inspect::{
    inspect_gsplat_nodes, list_or_empty, metadata_views, scene_splats, Accessor, MissingMesh,
};
use crate::import_state::{
    lemma_keys_differ, lemma_metadata_lookup, metadata_entries, summary_text,
    ImportedSplatMetadata, MetadataView, BASE_EXTENSION,
    COMPRESSION_EXTENSION,
};
use crate::text::{int_text, push_int};
use crate::variant::{
    dict_array, duplicate_texts, list_under, lookup, texts, values_of, with_entry, Dictionary,
    Entry, Value, Variant,
};
use vstd::prelude::*;
use vstd::string::*;

verus! {

/// The extensions that are understood.
pub fn supported_extensions() -> (names: Vec<String>)
    ensures
        texts(names@) == seq![BASE_EXTENSION@, COMPRESSION_EXTENSION@],
{
    let names: Vec<String> = vec![BASE_EXTENSION.to_owned(), COMPRESSION_EXTENSION.to_owned()];
    assert(texts(names@) =~= seq![BASE_EXTENSION@, COMPRESSION_EXTENSION@]);
    names
}

/// What is noted before an import: the extensions that are understood, and those of the file.
pub fn import_preflight(extensions: &Vec<String>) -> (data: Dictionary)
    ensures
        data@ == with_entry(
            with_entry(
                Seq::empty(),
                "supported"@,
                Value::TextList(seq![BASE_EXTENSION@, COMPRESSION_EXTENSION@]),
            ),
            "imported"@,
            Value::TextList(texts(extensions@)),
        ),
{
    let mut data = Dictionary::new();
    data.set("supported", Variant::TextList(supported_extensions()));
    data.set("imported", Variant::TextList(duplicate_texts(extensions)));
    data
}

/// Something to tell a person.
#[derive(Debug)]
pub struct ImportNotice {
    pub is_error: bool,
    pub text: String,
}

/// Something to tell a person.
#[verifier::ext_equal]
pub ghost struct NoticeView {
    pub is_error: bool,
    pub text: Seq<char>,
}

/// What a parsed scene holds of splat clouds.
#[derive(Debug)]
pub struct ParsedClouds {
    /// For every cloud the index of its node and what is known of it.
    pub nodes: Vec<(usize, Dictionary)>,
    /// One line about every cloud.
    pub summaries: Vec<String>,
    /// What there is to tell.
    pub notices: Vec<ImportNotice>,
    /// Something is wrong with a cloud.
    pub has_errors: bool,
}

/// The contents of what a parsed scene holds.
#[verifier::ext_equal]
pub ghost struct ParsedView {
    pub nodes: Seq<(usize, Seq<Entry>)>,
    pub summaries: Seq<Seq<char>>,
    pub notices: Seq<NoticeView>,
    pub has_errors: bool,
}

impl View for ParsedClouds {
    type V = ParsedView;

    open spec fn view(&self) -> ParsedView {
        ParsedView {
            nodes: Seq::new(
                self.nodes@.len(),
                |i: int| (self.nodes@[i].0, self.nodes@[i].1@),
            ),
            summaries: texts(self.summaries@),
            notices: notice_views(self.notices@),
            has_errors: self.has_errors,
        }
    }
}

/// The contents of notices.
pub open spec fn notice_views(notices: Seq<ImportNotice>) -> Seq<NoticeView> {
    Seq::new(
        notices.len(),
        |i: int| NoticeView { is_error: notices[i].is_error, text: notices[i].text@ },
    )
}

/// A notice about every message.
pub open spec fn notices_about(
    is_error: bool,
    before: Seq<char>,
    node: i32,
    messages: Seq<Seq<char>>,
) -> Seq<NoticeView> {
    Seq::new(
        messages.len(),
        |i: int|
            NoticeView {
                is_error,
                text: before + int_text(node as int) + ": "@ + messages[i],
            },
    )
}

/// What the first `n` clouds add to a parsed scene with `node_count` nodes. One without a node is
/// passed over; one whose node is missing is an error.
pub open spec fn parsed_clouds(list: Seq<MetadataView>, node_count: usize, n: nat) -> ParsedView
    decreases n,
{
    if n == 0 {
        ParsedView {
            nodes: Seq::empty(),
            summaries: Seq::empty(),
            notices: Seq::empty(),
            has_errors: false,
        }
    } else {
        with_cloud(
            parsed_clouds(list, node_count, (n - 1) as nat),
            list[n - 1],
            node_count,
        )
    }
}

/// A parsed scene with one more cloud.
pub open spec fn with_cloud(before: ParsedView, m: MetadataView, node_count: usize) -> ParsedView {
    match m.node_index {
        None => before,
        Some(node) => if node < 0 || node >= node_count {
            ParsedView {
                notices: before.notices.push(
                    NoticeView {
                        is_error: true,
                        text: "Gaussian splat metadata references missing GLTF node."@,
                    },
                ),
                has_errors: true,
                ..before
            }
        } else {
            ParsedView {
                nodes: before.nodes.push((node as usize, metadata_entries(m))),
                summaries: before.summaries.push(summary_text(m)),
                notices: before.notices + notices_about(
                    true,
                    "Gaussian splat validation failed for node "@,
                    node,
                    m.validation_errors,
                ) + notices_about(
                    false,
                    "Gaussian splat import warning for node "@,
                    node,
                    m.validation_warnings,
                ),
                has_errors: before.has_errors || m.validation_errors.len() > 0,
            }
        },
    }
}

/// Appends a notice about every message.
fn push_notices(
    notices: &mut Vec<ImportNotice>,
    is_error: bool,
    before: &str,
    node: i32,
    messages: &Vec<String>,
)
    ensures
        notice_views(final(notices)@) == notice_views(old(notices)@) + notices_about(
            is_error,
            before@,
            node,
            texts(messages@),
        ),
{
    let ghost start = notice_views(notices@);
    let ghost all = notices_about(is_error, before@, node, texts(messages@));
    let mut i: usize = 0;
    assert(start + all.take(0) =~= start);
    while i < messages.len()
        invariant
            i <= messages@.len(),
            all == notices_about(is_error, before@, node, texts(messages@)),
            notice_views(notices@) == start + all.take(i as int),
        decreases messages@.len() - i,
    {
        let mut text: String = before.to_owned();
        push_int(&mut text, node as i64);
        text.append(": ");
        text.append(messages[i].as_str());
        let ghost done = notices@;
        assert(text@ =~= all[i as int].text);
        notices.push(ImportNotice { is_error, text });
        assert(notice_views(notices@) =~= notice_views(done).push(all[i as int]));
        assert(all.take(i + 1) =~= all.take(i as int).push(all[i as int]));
        i = i + 1;
    }
    assert(all.take(all.len() as int) =~= all);
}

/// Takes one more cloud into what a parsed scene holds.
fn add_cloud(parsed: &mut ParsedClouds, metadata: &ImportedSplatMetadata, node_count: usize)
    ensures
        final(parsed)@ == with_cloud(old(parsed)@, metadata@, node_count),
{
    let ghost before = parsed@;
    let node: i32 = match metadata.node_index {
        Some(node) => node,
        None => {
            return;
        },
    };
    if node < 0 || node as usize >= node_count {
        parsed.notices.push(
            ImportNotice {
                is_error: true,
                text: "Gaussian splat metadata references missing GLTF node.".to_owned(),
            },
        );
        parsed.has_errors = true;
        assert(parsed@ =~= with_cloud(before, metadata@, node_count));
        return;
    }
    parsed.nodes.push((node as usize, metadata.to_dictionary()));
    parsed.summaries.push(metadata.summary());
    if !metadata.is_valid() {
        parsed.has_errors = true;
    }
    push_notices(
        &mut parsed.notices,
        true,
        "Gaussian splat validation failed for node ",
        node,
        &metadata.validation_errors,
    );
    push_notices(
        &mut parsed.notices,
        false,
        "Gaussian splat import warning for node ",
        node,
        &metadata.validation_warnings,
    );
    proof {
        let want = with_cloud(before, metadata@, node_count);
        assert(parsed@.nodes =~= want.nodes);
        assert(parsed@.summaries =~= want.summaries);
        assert(parsed@.notices =~= want.notices);
    }
}

/// What a parsed scene with `node_count` nodes holds of splat clouds.
pub fn import_post_parse(json: &Dictionary, accessors: &Vec<Accessor>, node_count: usize)
    -> (result: Result<ParsedClouds, MissingMesh>)
    ensures
        ({
            let nodes = list_or_empty(json@, "nodes"@);
            let meshes = list_or_empty(json@, "meshes"@);
            match scene_splats(nodes, meshes, accessors@, nodes.len()) {
                Ok(list) => result matches Ok(parsed) && parsed@ == parsed_clouds(
                    list,
                    node_count,
                    list.len(),
                ),
                Err(missing) => result matches Err(found) && found == missing,
            }
        }),
{
    let list: Vec<ImportedSplatMetadata> = match inspect_gsplat_nodes(json, accessors) {
        Ok(list) => list,
        Err(missing) => {
            return Err(missing);
        },
    };
    let ghost views = metadata_views(list@);
    let mut parsed = ParsedClouds {
        nodes: Vec::new(),
        summaries: Vec::new(),
        notices: Vec::new(),
        has_errors: false,
    };
    assert(parsed@ =~= parsed_clouds(views, node_count, 0));
    let mut i: usize = 0;
    while i < list.len()
        invariant
            i <= list@.len(),
            views == metadata_views(list@),
            parsed@ == parsed_clouds(views, node_count, i as nat),
        decreases list@.len() - i,
    {
        add_cloud(&mut parsed, &list[i], node_count);
        i = i + 1;
    }
    Ok(parsed)
}

/// What is known of each cloud, as a list of dictionaries.
pub open spec fn cloud_values(nodes: Seq<(usize, Seq<Entry>)>) -> Seq<Value> {
    Seq::new(nodes.len(), |i: int| Value::Dict(nodes[i].1))
}

impl ParsedClouds {
    /// What is noted after parsing, added to what was noted before.
    pub fn note(&self, data: &mut Dictionary)
        ensures
            final(data)@ == with_entry(
                with_entry(old(data)@, "summaries"@, Value::TextList(self@.summaries)),
                "entries"@,
                Value::List(cloud_values(self@.nodes)),
            ),
    {
        let mut entries: Vec<Variant> = Vec::new();
        let mut i: usize = 0;
        while i < self.nodes.len()
            invariant
                i <= self.nodes@.len(),
                values_of(entries@) == cloud_values(self@.nodes).take(i as int),
            decreases self.nodes@.len() - i,
        {
            let ghost done = entries@;
            entries.push(Variant::Dict(self.nodes[i].1.duplicate()));
            assert(values_of(entries@) =~= values_of(done).push(
                cloud_values(self@.nodes)[i as int],
            ));
            i = i + 1;
            assert(values_of(entries@) =~= cloud_values(self@.nodes).take(i as int));
        }
        assert(values_of(entries@) =~= cloud_values(self@.nodes));
        data.set("summaries", Variant::TextList(duplicate_texts(&self.summaries)));
        data.set("entries", Variant::List(entries));
    }
}

/// The mesh that an entry is about: an integer of 32 bits.
pub open spec fn mesh_of(entry: Seq<Entry>) -> Option<i32> {
    match lookup(entry, "mesh_index"@) {
        Some(Value::Int(number)) if i32::MIN <= number <= i32::MAX => Some(number as i32),
        _ => None,
    }
}

/// What is known of the cloud of a mesh, from entry `from` on. The search ends without a result at
/// the first entry that is not about a mesh.
pub open spec fn cloud_of_mesh(entries: Seq<Value>, mesh_index: i32, from: int) -> Option<Seq<Entry>>
    decreases entries.len() - from,
{
    if from < 0 || from >= entries.len() {
        None
    } else {
        match entries[from] {
            Value::Dict(entry) => match mesh_of(entry) {
                Some(mesh) => if mesh == mesh_index {
                    Some(entry)
                } else {
                    cloud_of_mesh(entries, mesh_index, from + 1)
                },
                None => None,
            },
            _ => None,
        }
    }
}

/// What was noted of the cloud of a mesh.
pub fn metadata_from_state<'a>(data: &'a Dictionary, mesh_index: i32) -> (found: Option<
    &'a Dictionary,
>)
    ensures
        match list_under(data@, "entries"@) {
            None => found is None,
            Some(entries) => match found {
                Some(found) => cloud_of_mesh(entries, mesh_index, 0) == Some(found@),
                None => cloud_of_mesh(entries, mesh_index, 0) is None,
            },
        },
{
    let entries: &Vec<Variant> = match dict_array(data, "entries") {
        Some(entries) => entries,
        None => {
            return None;
        },
    };
    let ghost all = values_of(entries@);
    let mut i: usize = 0;
    while i < entries.len()
        invariant
            i <= entries@.len(),
            all == values_of(entries@),
            list_under(data@, "entries"@) == Some(all),
            cloud_of_mesh(all, mesh_index, 0) == cloud_of_mesh(all, mesh_index, i as int),
        decreases entries@.len() - i,
    {
        assert(all[i as int] == entries@[i as int]@);
        let entry: &Dictionary = match &entries[i] {
            Variant::Dict(entry) => entry,
            _ => {
                return None;
            },
        };
        let mesh: i32 = match entry.get("mesh_index") {
            Some(Variant::Int(number)) => if *number >= i32::MIN as i64 && *number
                <= i32::MAX as i64 {
                *number as i32
            } else {
                return None;
            },
            _ => {
                return None;
            },
        };
        if mesh == mesh_index {
            return Some(entry);
        }
        i = i + 1;
    }
    None
}

/// What was noted of clouds, as a list of dictionaries.
pub open spec fn noted(list: Seq<MetadataView>) -> Seq<Value> {
    Seq::new(list.len(), |i: int| Value::Dict(metadata_entries(list[i])))
}

/// What was noted of a cloud is found again by its mesh; where several have that mesh, the first.
pub proof fn noted_cloud_is_found(list: Seq<MetadataView>, i: int)
    requires
        0 <= i < list.len(),
        forall|j: int| 0 <= j <= i ==> (#[trigger] list[j]).mesh_index is Some,
        forall|j: int| 0 <= j < i ==> (#[trigger] list[j]).mesh_index != list[i].mesh_index,
    ensures
        cloud_of_mesh(noted(list), list[i].mesh_index->0, 0) == Some(metadata_entries(list[i])),
{
    lemma_found_from(list, i, 0);
}

/// The search for a cloud, from any place before it.
proof fn lemma_found_from(list: Seq<MetadataView>, i: int, from: int)
    requires
        0 <= from <= i < list.len(),
        forall|j: int| 0 <= j <= i ==> (#[trigger] list[j]).mesh_index is Some,
        forall|j: int| 0 <= j < i ==> (#[trigger] list[j]).mesh_index != list[i].mesh_index,
    ensures
        cloud_of_mesh(noted(list), list[i].mesh_index->0, from) == Some(metadata_entries(list[i])),
    decreases i - from,
{
    lemma_keys_differ();
    lemma_metadata_lookup(list[from], "mesh_index"@);
    assert(mesh_of(metadata_entries(list[from])) == list[from].mesh_index);
    if from < i {
        lemma_found_from(list, i, from + 1);
    }
}

/// The cloud of a node: what is known of it, and its splats, or what stands in for them where they
/// could not be decoded.
pub fn build_asset(raw_metadata: &Dictionary, decoded: Option<(DecodedSplatData, LocalBox)>)
    -> (asset: GaussianSplatAsset)
    ensures
        ({
            let known = crate::import_state::dictionary_metadata(raw_metadata@);
            &&& asset@.metadata == known
            &&& asset@.fallback_mode == known.fallback_mode
            &&& asset@.pack_index is None
            &&& match decoded {
                Some((data, local_aabb)) => {
                    &&& asset@.point_count == crate::asset::no_less_than_zero(data.point_count)
                    &&& asset@.payload == data.payload@
                    &&& asset@.payload_layout == data.payload_layout@
                    &&& asset@.local_aabb == local_aabb
                    &&& asset@.chunk_table == data.chunk_table
                    &&& asset@.sh_degree_available == data.sh_degree_available
                },
                None => {
                    &&& asset@.point_count == crate::asset::no_less_than_zero(known.point_count)
                    &&& asset@.payload == vstd::utf8::encode_utf8(
                        crate::asset::placeholder_text(known),
                    )
                    &&& asset@.payload_layout == crate::import_state::PAYLOAD_LAYOUT_V1@
                    &&& crate::extents::is_empty_box(asset@.local_aabb)
                    &&& asset@.chunk_table is None
                    &&& asset@.sh_degree_available == 0
                },
            }
        }),
{
    let mut asset = GaussianSplatAsset::default();
    match decoded {
        Some((data, local_aabb)) => {
            asset.apply_import_metadata(raw_metadata.duplicate());
            asset.apply_decoded_data(data, local_aabb);
        },
        None => {
            asset.initialize_from_import(raw_metadata.duplicate());
        },
    }
    asset
}

} // verus!
