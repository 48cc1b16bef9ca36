//! The packets that wait for the renderer, and how they are uploaded.

use crate::gsplat_pack::layout::{least, lemma_page_within, lemma_pages_for, pages_for};
use crate::render_packet::{
    GaussianSplatRenderPacket, PacketView, RENDER_STATUS_EMPTY, RENDER_STATUS_PENDING_UPLOAD,
    RENDER_UPLOAD_UNSUPPORTED,
};
use crate::text::text_eq;
use crate::variant::{values_of, with_entry, Dictionary, Entry, Value, Variant};
use vstd::prelude::*;
use vstd::string::*;

verus! {

/// What becomes of the packets: they are staged, and no more.
pub const MANAGER_BACKEND_STATUS_STAGING_ONLY: &'static str = "staging_only";

/// The bytes per upload at the start.
pub const DEFAULT_UPLOAD_CHUNK_BYTES: i64 = 4_194_304;

/// The fewest bytes per upload.
pub const MIN_UPLOAD_CHUNK_BYTES: i64 = 4096;

/// A packet and the number that it is known by.
#[derive(Debug)]
pub struct RegisteredPacket {
    pub handle: i64,
    pub packet: GaussianSplatRenderPacket,
}

/// The packets that wait for the renderer.
#[derive(Debug)]
pub struct GaussianSplatRenderManager {
    pub next_handle: i64,
    pub max_upload_chunk_bytes: i64,
    pub packets: Vec<RegisteredPacket>,
}

/// A packet and the number that it is known by.
#[verifier::ext_equal]
pub ghost struct RegisteredView {
    pub handle: i64,
    pub packet: PacketView,
}

/// The contents of a manager.
#[verifier::ext_equal]
pub ghost struct ManagerView {
    pub next_handle: i64,
    pub max_upload_chunk_bytes: i64,
    pub packets: Seq<RegisteredView>,
}

/// What an entry holds.
pub open spec fn registered_view(entry: RegisteredPacket) -> RegisteredView {
    RegisteredView { handle: entry.handle, packet: entry.packet@ }
}

impl View for GaussianSplatRenderManager {
    type V = ManagerView;

    open spec fn view(&self) -> ManagerView {
        ManagerView {
            next_handle: self.next_handle,
            max_upload_chunk_bytes: self.max_upload_chunk_bytes,
            packets: Seq::new(
                self.packets@.len(),
                |i: int| registered_view(self.packets@[i]),
            ),
        }
    }
}

/// Whether numbers are given out in order, from one on, and an upload has bytes.
pub open spec fn is_consistent(manager: ManagerView) -> bool {
    &&& manager.next_handle >= 1
    &&& manager.max_upload_chunk_bytes >= MIN_UPLOAD_CHUNK_BYTES
    &&& forall|i: int|
        0 <= i < manager.packets.len() ==> 1 <= (#[trigger] manager.packets[i]).handle
            < manager.next_handle
    &&& forall|i: int, j: int|
        0 <= i < j < manager.packets.len() ==> (#[trigger] manager.packets[i]).handle < (
        #[trigger] manager.packets[j]).handle
}

/// The place of the packet with the given number, if there is one.
pub open spec fn found_at(packets: Seq<RegisteredView>, handle: i64) -> Option<int> {
    if exists|i: int| 0 <= i < packets.len() && (#[trigger] packets[i]).handle == handle {
        Some(
            choose|i: int| 0 <= i < packets.len() && (#[trigger] packets[i]).handle == handle,
        )
    } else {
        None
    }
}

/// One upload: some bytes of a packet.
#[verifier::ext_equal]
pub ghost struct UploadView {
    pub handle: i64,
    pub byte_offset: int,
    pub byte_len: int,
    pub packet: PacketView,
}

/// The bytes that there are to upload.
pub open spec fn upload_size(packet: PacketView) -> int {
    if packet.payload_byte_len < 0 {
        0
    } else {
        packet.payload_byte_len as int
    }
}

/// The uploads of one packet: its bytes from the start to the end, as many at a time as allowed.
/// A packet that does not wait has none.
pub open spec fn packet_uploads(entry: RegisteredView, max_bytes: int) -> Seq<UploadView> {
    if entry.packet.status == RENDER_STATUS_PENDING_UPLOAD@ {
        Seq::new(
            pages_for(upload_size(entry.packet), max_bytes) as nat,
            |k: int|
                UploadView {
                    handle: entry.handle,
                    byte_offset: k * max_bytes,
                    byte_len: least(max_bytes, upload_size(entry.packet) - k * max_bytes),
                    packet: entry.packet,
                },
        )
    } else {
        Seq::empty()
    }
}

/// The uploads of the first `n` packets.
pub open spec fn all_uploads(manager: ManagerView, n: nat) -> Seq<UploadView>
    decreases n,
{
    if n == 0 {
        Seq::empty()
    } else {
        all_uploads(manager, (n - 1) as nat) + packet_uploads(
            manager.packets[n - 1],
            manager.max_upload_chunk_bytes as int,
        )
    }
}

/// The entries that describe an upload.
pub open spec fn upload_entries(upload: UploadView) -> Seq<Entry> {
    let e1 = with_entry(Seq::empty(), "handle"@, Value::Int(upload.handle));
    let e2 = with_entry(e1, "revision"@, Value::Int(upload.packet.revision));
    let e3 = with_entry(e2, "byte_offset"@, Value::Int(upload.byte_offset as i64));
    let e4 = with_entry(e3, "byte_len"@, Value::Int(upload.byte_len as i64));
    let e5 = with_entry(e4, "point_count"@, Value::Int(upload.packet.point_count as i64));
    let e6 = with_entry(e5, "upload_format"@, Value::Text(upload.packet.upload_format));
    with_entry(e6, "pipeline"@, Value::Text(upload.packet.pipeline))
}

/// The uploads of a packet follow each other without a gap, start at its first byte and end at its
/// last, and none is empty or larger than allowed.
pub proof fn uploads_cover_the_packet(entry: RegisteredView, max_bytes: int)
    requires
        max_bytes >= 1,
        entry.packet.status == RENDER_STATUS_PENDING_UPLOAD@,
    ensures
        ({
            let uploads = packet_uploads(entry, max_bytes);
            let n = uploads.len() as int;
            &&& n == 0 <==> upload_size(entry.packet) == 0
            &&& n > 0 ==> uploads[0].byte_offset == 0 && uploads[n - 1].byte_offset + uploads[n
                - 1].byte_len == upload_size(entry.packet)
            &&& forall|k: int|
                0 <= k < n ==> 1 <= (#[trigger] uploads[k]).byte_len <= max_bytes
            &&& forall|k: int|
                0 <= k < n - 1 ==> (#[trigger] uploads[k]).byte_offset + uploads[k].byte_len
                    == uploads[k + 1].byte_offset
        }),
{
    let size = upload_size(entry.packet);
    let uploads = packet_uploads(entry, max_bytes);
    let n = pages_for(size, max_bytes);
    vstd::arithmetic::div_mod::lemma_fundamental_div_mod(size + max_bytes - 1, max_bytes);
    assert(n >= 0 && n * max_bytes >= size && (n - 1) * max_bytes < size) by (nonlinear_arith)
        requires
            size + max_bytes - 1 == max_bytes * n + (size + max_bytes - 1) % max_bytes,
            0 <= (size + max_bytes - 1) % max_bytes < max_bytes,
            size >= 0,
            max_bytes >= 1,
    ;
    assert((n - 1) * max_bytes + max_bytes == n * max_bytes) by (nonlinear_arith);
    if n == 0 {
        assert(n * max_bytes == 0) by (nonlinear_arith)
            requires
                n == 0,
        ;
    } else {
        assert(0 * max_bytes == 0) by (nonlinear_arith);
        if size == 0 {
            assert((n - 1) * max_bytes >= 0) by (nonlinear_arith)
                requires
                    n >= 1,
                    max_bytes >= 1,
            ;
        }
    }
    assert forall|k: int| 0 <= k < n implies 1 <= (#[trigger] uploads[k]).byte_len <= max_bytes
        && (k < n - 1 ==> uploads[k].byte_offset + uploads[k].byte_len == uploads[k
        + 1].byte_offset) by {
        assert(k * max_bytes <= (n - 1) * max_bytes) by (nonlinear_arith)
            requires
                k <= n - 1,
                max_bytes >= 1,
        ;
        assert((k + 1) * max_bytes == k * max_bytes + max_bytes) by (nonlinear_arith);
        if k < n - 1 {
            assert((k + 1) * max_bytes <= (n - 1) * max_bytes) by (nonlinear_arith)
                requires
                    k + 1 <= n - 1,
                    max_bytes >= 1,
            ;
        }
    }
}

/// The uploads as a list of dictionaries.
pub open spec fn upload_values(uploads: Seq<UploadView>) -> Seq<Value> {
    Seq::new(uploads.len(), |i: int| Value::Dict(upload_entries(uploads[i])))
}

/// How many of the first `n` packets have the given status.
pub open spec fn count_with_status(packets: Seq<RegisteredView>, status: Seq<char>, n: nat) -> int
    decreases n,
{
    if n == 0 {
        0
    } else {
        count_with_status(packets, status, (n - 1) as nat) + (if packets[n - 1].packet.status
            == status {
            1int
        } else {
            0
        })
    }
}

/// The points of the first `n` packets.
pub open spec fn total_points(packets: Seq<RegisteredView>, n: nat) -> int
    decreases n,
{
    if n == 0 {
        0
    } else {
        total_points(packets, (n - 1) as nat) + packets[n - 1].packet.point_count
    }
}

/// The bytes of the first `n` packets.
pub open spec fn total_bytes(packets: Seq<RegisteredView>, n: nat) -> int
    decreases n,
{
    if n == 0 {
        0
    } else {
        total_bytes(packets, (n - 1) as nat) + packets[n - 1].packet.payload_byte_len
    }
}

/// Whether 64 bits hold the points and bytes of the packets, added up one after the other.
pub open spec fn sums_fit(packets: Seq<RegisteredView>) -> bool {
    forall|n: nat|
        n <= packets.len() ==> i64::MIN <= #[trigger] total_points(packets, n) <= i64::MAX
            && i64::MIN <= total_bytes(packets, n) <= i64::MAX
}

/// The entries that describe what a manager holds.
pub open spec fn stats_entries(manager: ManagerView) -> Seq<Entry> {
    let n = manager.packets.len();
    let e1 = with_entry(
        Seq::empty(),
        "backend_status"@,
        Value::Text(MANAGER_BACKEND_STATUS_STAGING_ONLY@),
    );
    let e2 = with_entry(e1, "packet_count"@, Value::Int(n as i64));
    let e3 = with_entry(
        e2,
        "pending_upload_count"@,
        Value::Int(
            count_with_status(manager.packets, RENDER_STATUS_PENDING_UPLOAD@, n) as i64,
        ),
    );
    let e4 = with_entry(
        e3,
        "unsupported_count"@,
        Value::Int(count_with_status(manager.packets, RENDER_UPLOAD_UNSUPPORTED@, n) as i64),
    );
    let e5 = with_entry(
        e4,
        "total_point_count"@,
        Value::Int(total_points(manager.packets, n) as i64),
    );
    let e6 = with_entry(
        e5,
        "total_payload_byte_len"@,
        Value::Int(total_bytes(manager.packets, n) as i64),
    );
    let e7 = with_entry(
        e6,
        "max_upload_chunk_bytes"@,
        Value::Int(manager.max_upload_chunk_bytes),
    );
    with_entry(e7, "cpu_mesh_expansion_allowed"@, Value::Bool(false))
}

impl Default for GaussianSplatRenderManager {
    fn default() -> (manager: GaussianSplatRenderManager)
        ensures
            is_consistent(manager@),
            manager@ == (ManagerView {
                next_handle: 1,
                max_upload_chunk_bytes: DEFAULT_UPLOAD_CHUNK_BYTES,
                packets: Seq::empty(),
            }),
    {
        let manager = GaussianSplatRenderManager {
            next_handle: 1,
            max_upload_chunk_bytes: DEFAULT_UPLOAD_CHUNK_BYTES,
            packets: Vec::new(),
        };
        assert(manager@.packets =~= Seq::empty());
        manager
    }
}

impl GaussianSplatRenderManager {
    /// Registers a packet, and gives it a number that no packet had before. Without a packet, or
    /// with an empty one, the number is zero and nothing is registered.
    pub fn register_packet(&mut self, packet: Option<GaussianSplatRenderPacket>) -> (handle: i64)
        requires
            is_consistent(old(self)@),
            old(self)@.next_handle < i64::MAX,
        ensures
            is_consistent(final(self)@),
            match packet {
                Some(packet) if packet@.status != RENDER_STATUS_EMPTY@ => {
                    &&& handle == old(self)@.next_handle
                    &&& final(self)@ == (ManagerView {
                        next_handle: (handle + 1) as i64,
                        packets: old(self)@.packets.push(
                            RegisteredView { handle, packet: packet@ },
                        ),
                        ..old(self)@
                    })
                },
                _ => handle == 0 && final(self)@ == old(self)@,
            },
    {
        let packet: GaussianSplatRenderPacket = match packet {
            Some(packet) => packet,
            None => {
                return 0;
            },
        };
        if text_eq(packet.status.as_str(), RENDER_STATUS_EMPTY) {
            return 0;
        }
        let handle: i64 = self.next_handle;
        self.next_handle = handle + 1;
        self.packets.push(RegisteredPacket { handle, packet });
        proof {
            let before = old(self)@.packets;
            let after = self@.packets;
            assert(after =~= before.push(RegisteredView { handle, packet: packet@ }));
        }
        handle
    }

    /// Takes a packet out by its number. Says whether there was one.
    pub fn unregister_packet(&mut self, handle: i64) -> (removed: bool)
        requires
            is_consistent(old(self)@),
        ensures
            is_consistent(final(self)@),
            match found_at(old(self)@.packets, handle) {
                Some(i) => removed && final(self)@ == (ManagerView {
                    packets: old(self)@.packets.remove(i),
                    ..old(self)@
                }),
                None => !removed && final(self)@ == old(self)@,
            },
    {
        let ghost before = self@.packets;
        let mut i: usize = 0;
        while i < self.packets.len()
            invariant
                i <= self.packets@.len(),
                *self == *old(self),
                before == self@.packets,
                is_consistent(self@),
                forall|j: int| 0 <= j < i ==> (#[trigger] before[j]).handle != handle,
            decreases self.packets@.len() - i,
        {
            assert(before[i as int] == registered_view(self.packets@[i as int]));
            if self.packets[i].handle == handle {
                self.packets.remove(i);
                assert(self@.packets =~= before.remove(i as int));
                return true;
            }
            i = i + 1;
        }
        false
    }

    /// Takes all packets out.
    pub fn clear(&mut self)
        ensures
            final(self)@ == (ManagerView { packets: Seq::empty(), ..old(self)@ }),
            is_consistent(old(self)@) ==> is_consistent(final(self)@),
    {
        self.packets = Vec::new();
        assert(self@.packets =~= Seq::empty());
    }

    /// The bytes per upload.
    pub fn get_max_upload_chunk_bytes(&self) -> (bytes: i64)
        ensures
            bytes == self@.max_upload_chunk_bytes,
    {
        self.max_upload_chunk_bytes
    }

    /// Sets the bytes per upload.
    pub fn set_max_upload_chunk_bytes(&mut self, max_upload_chunk_bytes: i64)
        ensures
            final(self)@ == (ManagerView {
                max_upload_chunk_bytes: if max_upload_chunk_bytes < MIN_UPLOAD_CHUNK_BYTES {
                    MIN_UPLOAD_CHUNK_BYTES
                } else {
                    max_upload_chunk_bytes
                },
                ..old(self)@
            }),
            is_consistent(old(self)@) ==> is_consistent(final(self)@),
    {
        self.max_upload_chunk_bytes = if max_upload_chunk_bytes < MIN_UPLOAD_CHUNK_BYTES {
            MIN_UPLOAD_CHUNK_BYTES
        } else {
            max_upload_chunk_bytes
        };
        assert(self@.packets =~= old(self)@.packets);
    }

    /// How many packets there are.
    pub fn get_packet_count(&self) -> (count: i32)
        ensures
            count == self.packets.len() as i32,
    {
        self.packets.len() as i32
    }

    /// The uploads of all packets that wait, in order.
    pub fn export_upload_plan(&self) -> (plan: Vec<Variant>)
        requires
            is_consistent(self@),
        ensures
            values_of(plan@) == upload_values(all_uploads(self@, self@.packets.len())),
    {
        let mut plan: Vec<Variant> = Vec::new();
        let mut i: usize = 0;
        assert(values_of(plan@) =~= upload_values(all_uploads(self@, 0)));
        while i < self.packets.len()
            invariant
                i <= self.packets@.len(),
                self@.max_upload_chunk_bytes >= MIN_UPLOAD_CHUNK_BYTES,
                values_of(plan@) == upload_values(all_uploads(self@, i as nat)),
            decreases self.packets@.len() - i,
        {
            let ghost before = all_uploads(self@, i as nat);
            push_uploads(&mut plan, &self.packets[i], self.max_upload_chunk_bytes);
            proof {
                let more = packet_uploads(
                    self@.packets[i as int],
                    self@.max_upload_chunk_bytes as int,
                );
                assert(upload_values(before + more) =~= upload_values(before) + upload_values(
                    more,
                ));
            }
            i = i + 1;
        }
        plan
    }

    /// Whether the points and bytes of the packets can be added up.
    pub fn totals_fit(&self) -> (fit: bool)
        ensures
            fit == sums_fit(self@.packets),
    {
        let ghost packets = self@.packets;
        let mut points: i128 = 0;
        let mut bytes: i128 = 0;
        let mut i: usize = 0;
        while i < self.packets.len()
            invariant
                i <= self.packets@.len(),
                packets == self@.packets,
                points == total_points(packets, i as nat),
                bytes == total_bytes(packets, i as nat),
                i64::MIN <= points <= i64::MAX,
                i64::MIN <= bytes <= i64::MAX,
                forall|n: nat|
                    n <= i ==> i64::MIN <= #[trigger] total_points(packets, n) <= i64::MAX
                        && i64::MIN <= total_bytes(packets, n) <= i64::MAX,
            decreases self.packets@.len() - i,
        {
            assert(packets[i as int] == registered_view(self.packets@[i as int]));
            points = points + self.packets[i].packet.point_count as i128;
            bytes = bytes + self.packets[i].packet.payload_byte_len as i128;
            i = i + 1;
            if points < i64::MIN as i128 || points > i64::MAX as i128 || bytes < i64::MIN as i128
                || bytes > i64::MAX as i128 {
                assert(total_points(packets, i as nat) == points);
                return false;
            }
        }
        true
    }

    /// A dictionary that describes what is held.
    pub fn export_stats(&self) -> (dict: Dictionary)
        requires
            sums_fit(self@.packets),
        ensures
            dict@ == stats_entries(self@),
    {
        let ghost packets = self@.packets;
        let mut pending: u64 = 0;
        let mut unsupported: u64 = 0;
        let mut points: i64 = 0;
        let mut bytes: i64 = 0;
        let mut i: usize = 0;
        proof {
            lemma_statuses_differ();
        }
        while i < self.packets.len()
            invariant
                i <= self.packets@.len(),
                packets == self@.packets,
                sums_fit(packets),
                RENDER_STATUS_PENDING_UPLOAD@ != RENDER_UPLOAD_UNSUPPORTED@,
                pending == count_with_status(packets, RENDER_STATUS_PENDING_UPLOAD@, i as nat),
                unsupported == count_with_status(packets, RENDER_UPLOAD_UNSUPPORTED@, i as nat),
                pending <= i,
                unsupported <= i,
                points == total_points(packets, i as nat),
                bytes == total_bytes(packets, i as nat),
            decreases self.packets@.len() - i,
        {
            let packet: &GaussianSplatRenderPacket = &self.packets[i].packet;
            assert(packets[i as int] == registered_view(self.packets@[i as int]));
            assert(total_points(packets, (i + 1) as nat) == points + packet.point_count);
            if text_eq(packet.status.as_str(), RENDER_STATUS_PENDING_UPLOAD) {
                pending = pending + 1;
            } else if text_eq(packet.status.as_str(), RENDER_UPLOAD_UNSUPPORTED) {
                unsupported = unsupported + 1;
            }
            points = points + packet.point_count as i64;
            bytes = bytes + packet.payload_byte_len;
            i = i + 1;
        }
        let mut dict = Dictionary::new();
        dict.set(
            "backend_status",
            Variant::Text(MANAGER_BACKEND_STATUS_STAGING_ONLY.to_owned()),
        );
        dict.set("packet_count", Variant::Int(self.packets.len() as i64));
        dict.set("pending_upload_count", Variant::Int(pending as i64));
        dict.set("unsupported_count", Variant::Int(unsupported as i64));
        dict.set("total_point_count", Variant::Int(points));
        dict.set("total_payload_byte_len", Variant::Int(bytes));
        dict.set("max_upload_chunk_bytes", Variant::Int(self.max_upload_chunk_bytes));
        dict.set("cpu_mesh_expansion_allowed", Variant::Bool(false));
        dict
    }
}

/// Appends the uploads of one packet.
fn push_uploads(plan: &mut Vec<Variant>, entry: &RegisteredPacket, max_bytes: i64)
    requires
        max_bytes >= MIN_UPLOAD_CHUNK_BYTES,
    ensures
        values_of(final(plan)@) == values_of(old(plan)@) + upload_values(
            packet_uploads(registered_view(*entry), max_bytes as int),
        ),
{
    let ghost before = values_of(plan@);
    let ghost view = registered_view(*entry);
    let ghost uploads = packet_uploads(view, max_bytes as int);
    let packet: &GaussianSplatRenderPacket = &entry.packet;
    if !text_eq(packet.status.as_str(), RENDER_STATUS_PENDING_UPLOAD) {
        assert(before + upload_values(uploads) =~= before);
        return;
    }
    let size: i64 = if packet.payload_byte_len < 0 {
        0
    } else {
        packet.payload_byte_len
    };
    let ghost mut k: int = 0;
    let mut byte_offset: i64 = 0;
    assert(0 * max_bytes == 0) by (nonlinear_arith);
    assert(before + upload_values(uploads.take(0)) =~= before);
    proof {
        if size == 0 {
            lemma_pages_for(0, max_bytes as int, 0);
        }
    }
    while byte_offset < size
        invariant
            max_bytes >= MIN_UPLOAD_CHUNK_BYTES,
            0 <= byte_offset <= size,
            size == upload_size(view.packet),
            view == registered_view(*entry),
            packet == entry.packet,
            uploads == packet_uploads(view, max_bytes as int),
            view.packet.status == RENDER_STATUS_PENDING_UPLOAD@,
            0 <= k,
            byte_offset < size ==> byte_offset == k * max_bytes,
            byte_offset == size ==> uploads.len() == k,
            k <= uploads.len(),
            values_of(plan@) == before + upload_values(uploads.take(k)),
        decreases size - byte_offset,
    {
        let left: i64 = size - byte_offset;
        let byte_len: i64 = if left < max_bytes {
            left
        } else {
            max_bytes
        };
        proof {
            lemma_page_within(size as int, max_bytes as int, k);
            assert((k + 1) * max_bytes == k * max_bytes + max_bytes) by (nonlinear_arith);
            if byte_offset + byte_len == size {
                lemma_pages_for(size as int, max_bytes as int, k + 1);
            } else {
                lemma_page_within(size as int, max_bytes as int, k + 1);
            }
        }
        let mut item = Dictionary::new();
        item.set("handle", Variant::Int(entry.handle));
        item.set("revision", Variant::Int(packet.revision));
        item.set("byte_offset", Variant::Int(byte_offset));
        item.set("byte_len", Variant::Int(byte_len));
        item.set("point_count", Variant::Int(packet.point_count as i64));
        item.set("upload_format", Variant::Text(packet.upload_format.clone()));
        item.set("pipeline", Variant::Text(packet.pipeline.clone()));
        let ghost done = plan@;
        assert(item@ == upload_entries(uploads[k]));
        plan.push(Variant::Dict(item));
        proof {
            assert(values_of(plan@) =~= values_of(done).push(
                Value::Dict(upload_entries(uploads[k])),
            ));
            assert(upload_values(uploads.take(k + 1)) =~= upload_values(uploads.take(k)).push(
                Value::Dict(upload_entries(uploads[k])),
            ));
            k = k + 1;
        }
        byte_offset = byte_offset + byte_len;
    }
    assert(uploads.take(k) =~= uploads);
}

/// What waits and what cannot be uploaded have different names.
proof fn lemma_statuses_differ()
    ensures
        RENDER_STATUS_PENDING_UPLOAD@ != RENDER_UPLOAD_UNSUPPORTED@,
{
    reveal_strlit("pending_upload");
    reveal_strlit("unsupported");
    assert("pending_upload"@[0] == 'p');
    assert("unsupported"@[0] == 'u');
}

} // verus!
