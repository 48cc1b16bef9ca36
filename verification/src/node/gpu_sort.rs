//! The depth sort: which resources it takes, when it runs, and what it writes.

use crate::bytes::words_bytes;
use crate::engine::rgbaf_format_ord;
use crate::extents::{column, column_extent, highest, lowest};
use crate::floats::{F32, ONE_BITS, ZERO_BITS};
use crate::words::{float_bytes, float_words, floats_to_bytes};
use vstd::prelude::*;

verus! {

/// Depth buckets.
pub const SORT_NUM_BUCKETS: u32 = 65536;

/// Splats per workgroup.
pub const SORT_LOCAL_SIZE: u32 = 256;

/// Buckets per block of the prefix sum.
pub const SORT_SCAN_BLOCK: u32 = 1024;

/// Blocks of the prefix sum.
pub const SORT_NUM_BLOCKS: u32 = SORT_NUM_BUCKETS / SORT_SCAN_BLOCK;

/// Texels in a row of the sort texture.
pub const SORT_TEX_WIDTH: i32 = 4096;

/// Milliseconds between one sort and the next at least.
pub const SORT_RESORT_MIN_INTERVAL_MS: u64 = 200;

/// The bits of 0.0001: the shortest distance range.
pub const MIN_DEPTH_RANGE_BITS: u32 = 0x38d1_b717;

/// The stages of the sort, in the order in which they run.
#[derive(Clone, Copy, Debug, PartialEq, Eq, Structural)]
pub enum SortStage {
    Count,
    ScanLocal,
    ScanBlocksums,
    ScanAdd,
    Scatter,
}

/// What a stage reads or writes.
#[derive(Clone, Copy, Debug, PartialEq, Eq, Structural)]
pub enum SortBinding {
    Positions,
    Histogram,
    Offsets,
    SortImage,
    BlockSums,
}

/// The slot that a stage finds a binding in.
pub open spec fn slot_of(binding: SortBinding) -> i32 {
    match binding {
        SortBinding::Positions => 0,
        SortBinding::Histogram => 1,
        SortBinding::Offsets => 2,
        SortBinding::SortImage => 3,
        SortBinding::BlockSums => 4,
    }
}

impl SortBinding {
    /// The slot that a stage finds the binding in.
    pub fn slot(self) -> (slot: i32)
        ensures
            slot == slot_of(self),
    {
        match self {
            SortBinding::Positions => 0,
            SortBinding::Histogram => 1,
            SortBinding::Offsets => 2,
            SortBinding::SortImage => 3,
            SortBinding::BlockSums => 4,
        }
    }
}

/// What each stage reads or writes.
pub open spec fn bindings_of(stage: SortStage) -> Seq<SortBinding> {
    match stage {
        SortStage::Count => seq![SortBinding::Positions, SortBinding::Histogram],
        SortStage::ScanLocal => seq![
            SortBinding::Histogram,
            SortBinding::Offsets,
            SortBinding::BlockSums,
        ],
        SortStage::ScanBlocksums => seq![SortBinding::BlockSums],
        SortStage::ScanAdd => seq![SortBinding::Offsets, SortBinding::BlockSums],
        SortStage::Scatter => seq![
            SortBinding::Positions,
            SortBinding::Offsets,
            SortBinding::SortImage,
        ],
    }
}

impl SortStage {
    /// What the stage reads or writes.
    pub fn bindings(self) -> (bindings: Vec<SortBinding>)
        ensures
            bindings@ == bindings_of(self),
    {
        let bindings: Vec<SortBinding> = match self {
            SortStage::Count => vec![SortBinding::Positions, SortBinding::Histogram],
            SortStage::ScanLocal => vec![
                SortBinding::Histogram,
                SortBinding::Offsets,
                SortBinding::BlockSums,
            ],
            SortStage::ScanBlocksums => vec![SortBinding::BlockSums],
            SortStage::ScanAdd => vec![SortBinding::Offsets, SortBinding::BlockSums],
            SortStage::Scatter => vec![
                SortBinding::Positions,
                SortBinding::Offsets,
                SortBinding::SortImage,
            ],
        };
        assert(bindings@ =~= bindings_of(self));
        bindings
    }
}

/// The handles of everything that the sort keeps on the device. Zero is no handle.
#[derive(Clone, Copy, Debug, PartialEq, Eq)]
pub struct SortHandles {
    pub pos_buf: u64,
    pub hist_buf: u64,
    pub off_buf: u64,
    pub blocks_buf: u64,
    pub sort_tex: u64,
    pub sort_tex_b: u64,
    pub shaders: [u64; 5],
    pub pipelines: [u64; 5],
    pub sets: [u64; 5],
    pub scatter_set_b: u64,
}

/// All handles, in the order in which they are freed: what uses a thing before the thing.
pub open spec fn handle_list(h: SortHandles) -> Seq<u64> {
    h.sets@ + seq![h.scatter_set_b] + h.pipelines@ + h.shaders@ + seq![
        h.sort_tex,
        h.sort_tex_b,
        h.pos_buf,
        h.hist_buf,
        h.off_buf,
        h.blocks_buf,
    ]
}

/// The handles that there may be where setting up was given up halfway, in the order in which they
/// are freed then.
pub open spec fn abandon_list(h: SortHandles) -> Seq<u64> {
    h.shaders@ + h.pipelines@ + seq![
        h.pos_buf,
        h.hist_buf,
        h.off_buf,
        h.blocks_buf,
        h.sort_tex,
        h.sort_tex_b,
    ]
}

/// The handles among a list.
pub open spec fn valid_handles(list: Seq<u64>) -> Seq<u64> {
    list.filter(|rid: u64| rid != 0)
}

/// The handles to free: none where the sort was never set up.
pub open spec fn handles_to_free(h: SortHandles) -> Seq<u64> {
    if h.pos_buf == 0 && h.shaders[0] == 0 && h.sort_tex == 0 {
        Seq::empty()
    } else {
        valid_handles(handle_list(h))
    }
}

/// Whether no handle is held.
pub open spec fn no_handles(h: SortHandles) -> bool {
    forall|i: int| 0 <= i < handle_list(h).len() ==> #[trigger] handle_list(h)[i] == 0
}

/// The handles among a list.
pub fn keep_valid(list: &[u64]) -> (valid: Vec<u64>)
    ensures
        valid@ == valid_handles(list@),
{
    broadcast use vstd::seq_lib::group_filter_ensures;
    let mut valid: Vec<u64> = Vec::new();
    let mut i: usize = 0;
    assert(valid_handles(list@.take(0)) =~= Seq::empty()) by {
        reveal(Seq::filter);
    }
    while i < list.len()
        invariant
            i <= list@.len(),
            valid@ == valid_handles(list@.take(i as int)),
        decreases list@.len() - i,
    {
        assert(list@.take(i + 1).drop_last() =~= list@.take(i as int));
        proof {
            reveal(Seq::filter);
        }
        if list[i] != 0 {
            valid.push(list[i]);
        }
        i = i + 1;
    }
    assert(list@.take(list@.len() as int) =~= list@);
    valid
}

impl SortHandles {
    /// No handles.
    pub fn none() -> (handles: SortHandles)
        ensures
            no_handles(handles),
    {
        let handles = SortHandles {
            pos_buf: 0,
            hist_buf: 0,
            off_buf: 0,
            blocks_buf: 0,
            sort_tex: 0,
            sort_tex_b: 0,
            shaders: [0, 0, 0, 0, 0],
            pipelines: [0, 0, 0, 0, 0],
            sets: [0, 0, 0, 0, 0],
            scatter_set_b: 0,
        };
        assert(handles.shaders@ =~= seq![0u64, 0, 0, 0, 0]);
        assert(handles.pipelines@ =~= seq![0u64, 0, 0, 0, 0]);
        assert(handles.sets@ =~= seq![0u64, 0, 0, 0, 0]);
        handles
    }

    /// The handles to free where setting up was given up halfway.
    pub fn to_abandon(&self) -> (list: Vec<u64>)
        ensures
            list@ == valid_handles(abandon_list(*self)),
    {
        let all: [u64; 16] = [
            self.shaders[0],
            self.shaders[1],
            self.shaders[2],
            self.shaders[3],
            self.shaders[4],
            self.pipelines[0],
            self.pipelines[1],
            self.pipelines[2],
            self.pipelines[3],
            self.pipelines[4],
            self.pos_buf,
            self.hist_buf,
            self.off_buf,
            self.blocks_buf,
            self.sort_tex,
            self.sort_tex_b,
        ];
        assert(all@ =~= abandon_list(*self));
        keep_valid(all.as_slice())
    }

    /// The handles to free.
    pub fn to_free(&self) -> (list: Vec<u64>)
        ensures
            list@ == handles_to_free(*self),
    {
        if self.pos_buf == 0 && self.shaders[0] == 0 && self.sort_tex == 0 {
            return Vec::new();
        }
        let all: [u64; 22] = [
            self.sets[0],
            self.sets[1],
            self.sets[2],
            self.sets[3],
            self.sets[4],
            self.scatter_set_b,
            self.pipelines[0],
            self.pipelines[1],
            self.pipelines[2],
            self.pipelines[3],
            self.pipelines[4],
            self.shaders[0],
            self.shaders[1],
            self.shaders[2],
            self.shaders[3],
            self.shaders[4],
            self.sort_tex,
            self.sort_tex_b,
            self.pos_buf,
            self.hist_buf,
            self.off_buf,
            self.blocks_buf,
        ];
        assert(all@ =~= handle_list(*self));
        keep_valid(all.as_slice())
    }
}

/// The two textures that a sort can write an order into.
#[derive(Clone, Copy, Debug, PartialEq, Eq, Structural)]
pub enum SortTarget {
    A,
    B,
}

/// The state of the sort.
#[derive(Clone, Debug)]
pub struct SortGpu {
    pub ready: bool,
    pub attempted: bool,
    pub enabled_in_shader: bool,
    pub dispatched_once: bool,
    /// The last sort wrote an order for each eye.
    pub per_eye_dispatched: bool,
    /// The material samples texture B, where there is one order for both eyes.
    pub front_is_b: bool,
    /// When the last sort ran, in milliseconds; zero before the first.
    pub last_sort_msec: u64,
    /// Where the camera was, seen from the node, when the last sort ran.
    pub last_sort_cam_local: Option<[F32; 3]>,
    /// The splat centers to sort, as bytes.
    pub positions: Vec<u8>,
    pub splat_count: i32,
    pub tex_width: i32,
    pub tex_height: i32,
    pub handles: SortHandles,
}

/// Whether the state is that of a sort which was never set up. The first sort writes texture A, so
/// B counts as the one in front.
pub open spec fn is_fresh(sort: SortGpu) -> bool {
    &&& !sort.ready
    &&& !sort.attempted
    &&& !sort.enabled_in_shader
    &&& !sort.dispatched_once
    &&& !sort.per_eye_dispatched
    &&& sort.front_is_b
    &&& sort.last_sort_msec == 0
    &&& sort.last_sort_cam_local is None
    &&& sort.tex_width == 0
    &&& sort.tex_height == 0
    &&& no_handles(sort.handles)
}

impl Default for SortGpu {
    fn default() -> (sort: SortGpu)
        ensures
            is_fresh(sort),
            sort.positions@.len() == 0,
            sort.splat_count == 0,
    {
        SortGpu {
            ready: false,
            attempted: false,
            enabled_in_shader: false,
            dispatched_once: false,
            per_eye_dispatched: false,
            front_is_b: true,
            last_sort_msec: 0,
            last_sort_cam_local: None,
            positions: Vec::new(),
            splat_count: 0,
            tex_width: 0,
            tex_height: 0,
            handles: SortHandles::none(),
        }
    }
}

/// The sizes of what the sort needs on the device.
#[derive(Clone, Copy, Debug, PartialEq, Eq, Structural)]
pub struct SortPlan {
    pub position_bytes: u32,
    pub bucket_bytes: u32,
    pub block_bytes: u32,
    pub tex_width: i32,
    pub tex_height: i32,
}

/// The rows of a sort texture for `count` splats.
pub open spec fn sort_rows(count: int) -> int {
    (count + SORT_TEX_WIDTH - 1) / SORT_TEX_WIDTH as int
}

/// What the sort needs on the device; nothing where there is nothing to sort.
pub open spec fn sort_plan_of(positions_len: usize, splat_count: i32) -> Option<SortPlan> {
    if splat_count <= 0 || positions_len == 0 {
        None
    } else {
        Some(
            SortPlan {
                position_bytes: positions_len as u32,
                bucket_bytes: (4 * SORT_NUM_BUCKETS) as u32,
                block_bytes: (4 * SORT_NUM_BLOCKS) as u32,
                tex_width: SORT_TEX_WIDTH,
                tex_height: sort_rows(splat_count as int) as i32,
            },
        )
    }
}

/// The texture that the sort of an eye writes. With one view it is the one that is not in front;
/// with a view per eye each eye has its own.
pub open spec fn target_of(views: int, front_is_b: bool, eye: int) -> SortTarget {
    if views == 1 {
        if front_is_b {
            SortTarget::A
        } else {
            SortTarget::B
        }
    } else if eye == 1 {
        SortTarget::B
    } else {
        SortTarget::A
    }
}

/// The texture that the material samples where there is one order for both eyes.
pub open spec fn front_of(front_is_b: bool) -> SortTarget {
    if front_is_b {
        SortTarget::B
    } else {
        SortTarget::A
    }
}

/// The textures that the material samples: for the first eye, and for the second.
pub open spec fn sampled_textures(sort: SortGpu) -> (SortTarget, SortTarget) {
    if sort.per_eye_dispatched {
        (SortTarget::A, SortTarget::B)
    } else {
        (front_of(sort.front_is_b), front_of(sort.front_is_b))
    }
}

/// The handle that a scatter into a texture is bound to.
pub open spec fn scatter_handle(h: SortHandles, target: SortTarget) -> u64 {
    match target {
        SortTarget::A => h.sets[4],
        SortTarget::B => h.scatter_set_b,
    }
}

/// The workgroups of each stage, in order.
pub open spec fn stage_groups(splat_count: i32) -> Seq<(SortStage, u32)> {
    let groups = if splat_count <= 0 {
        0
    } else {
        (splat_count + SORT_LOCAL_SIZE - 1) / SORT_LOCAL_SIZE as int
    };
    seq![
        (SortStage::Count, groups as u32),
        (SortStage::ScanLocal, SORT_NUM_BLOCKS),
        (SortStage::ScanBlocksums, 1),
        (SortStage::ScanAdd, SORT_NUM_BLOCKS),
        (SortStage::Scatter, groups as u32),
    ]
}

/// What to run on the device for one sort: for every view the handle to scatter to, and for every
/// stage its workgroups.
#[derive(Clone, Debug)]
pub struct DispatchPlan {
    pub scatter_sets: Vec<u64>,
    pub stages: Vec<(SortStage, u32)>,
    pub bucket_bytes: u32,
}

/// Whether a plan is the one for the given state and eyes.
pub open spec fn is_dispatch(plan: DispatchPlan, sort: SortGpu, eyes: Seq<usize>) -> bool {
    &&& plan.scatter_sets@ == Seq::new(
        eyes.len(),
        |i: int|
            scatter_handle(
                sort.handles,
                target_of(eyes.len() as int, sort.front_is_b, eyes[i] as int),
            ),
    )
    &&& plan.stages@ == stage_groups(sort.splat_count)
    &&& plan.bucket_bytes == 4 * SORT_NUM_BUCKETS
}

/// Whether the time since the last sort is long enough.
pub open spec fn interval_over(last: u64, now: u64) -> bool {
    last == 0 || now - last >= SORT_RESORT_MIN_INTERVAL_MS
}

/// Whether a sort is due: there has been none, or the camera has moved and the time is over.
pub open spec fn sort_due(sort: SortGpu, moved: bool, now: u64) -> bool {
    sort.last_sort_cam_local is None || (moved && interval_over(sort.last_sort_msec, now))
}

/// What a frame asks for.
#[derive(Clone, Debug)]
pub struct FrameWork {
    /// The sort to run, if one is due.
    pub dispatch: Option<DispatchPlan>,
    /// The material has to be pointed at the sorted order.
    pub bind_material: bool,
}

/// Whether a frame sorts: the sort is set up, there is a view, and a sort is due.
pub open spec fn frame_sorts(sort: SortGpu, views: int, moved: bool, now: u64) -> bool {
    sort.ready && views > 0 && sort_due(sort, moved, now)
}

/// Whether a frame turns on the sampling of the sorted order: one frame after the first sort, so
/// that the texture has been written before it is sampled.
pub open spec fn frame_turns_on(sort: SortGpu, views: int) -> bool {
    sort.ready && views > 0 && !sort.enabled_in_shader && sort.dispatched_once
}

/// The state after a sort for the given number of views.
pub open spec fn sorted(sort: SortGpu, views: int, camera: [F32; 3], now: u64) -> SortGpu {
    SortGpu {
        last_sort_cam_local: Some(camera),
        last_sort_msec: now,
        front_is_b: if views == 1 {
            !sort.front_is_b
        } else {
            sort.front_is_b
        },
        per_eye_dispatched: views != 1,
        ..sort
    }
}

/// The state after a frame.
pub open spec fn after_frame(
    sort: SortGpu,
    views: int,
    camera: [F32; 3],
    moved: bool,
    now: u64,
) -> SortGpu {
    if !sort.ready || views == 0 {
        sort
    } else {
        let done = if sort_due(sort, moved, now) {
            sorted(sort, views, camera, now)
        } else {
            sort
        };
        SortGpu {
            enabled_in_shader: sort.enabled_in_shader || sort.dispatched_once,
            dispatched_once: sort.dispatched_once || !sort.enabled_in_shader,
            ..done
        }
    }
}

/// A sort with one view never writes the texture that is being sampled, and the one that it writes
/// is the one that is sampled after it.
pub proof fn sort_swaps_textures(sort: SortGpu, camera: [F32; 3], moved: bool, now: u64, eye: int)
    requires
        frame_sorts(sort, 1, moved, now),
    ensures
        target_of(1, sort.front_is_b, eye) != front_of(sort.front_is_b),
        target_of(1, sort.front_is_b, eye) == front_of(
            after_frame(sort, 1, camera, moved, now).front_is_b,
        ),
{
}

/// A frame without a moved camera leaves a running sort as it is.
pub proof fn still_camera_costs_nothing(sort: SortGpu, views: int, camera: [F32; 3], now: u64)
    requires
        sort.enabled_in_shader,
        sort.last_sort_cam_local is Some,
    ensures
        after_frame(sort, views, camera, false, now) == sort,
        !frame_sorts(sort, views, false, now),
{
}

/// A data texture: its format, its numbers, and how many splats it is said to hold.
#[derive(Clone, Debug)]
pub struct DataTexture {
    pub format: i32,
    pub values: Vec<F32>,
    pub splat_count: i32,
}

/// What comes of an attempt to bring up the sort.
#[derive(Clone, Debug)]
pub struct EnableWork {
    /// What the recovered centers span, if they were recovered.
    pub bounds: Option<([F32; 3], [F32; 3])>,
    pub setup: Option<SortPlan>,
}

/// Whether a texture is one of single-precision numbers that holds its splats.
pub open spec fn holds_centers(data: DataTexture) -> bool {
    data.splat_count > 0 && data.format == 11 && data.values@.len() >= 16 * data.splat_count
}

/// The texture that centers are recovered from: where none are known, one that holds them.
pub open spec fn recoverable(sort: SortGpu, texture: Option<&DataTexture>) -> Option<DataTexture> {
    match texture {
        Some(data) if sort.positions@.len() == 0 && holds_centers(*data) => Some(*data),
        _ => None,
    }
}

impl SortGpu {
    /// What the sort needs on the device.
    pub fn plan_setup(&self) -> (plan: Option<SortPlan>)
        ensures
            plan == sort_plan_of(self.positions.len(), self.splat_count),
    {
        if self.splat_count <= 0 || self.positions.len() == 0 {
            return None;
        }
        let rows: i64 = (self.splat_count as i64 + 4095) / 4096;
        Some(
            SortPlan {
                position_bytes: self.positions.len() as u32,
                bucket_bytes: 4 * SORT_NUM_BUCKETS,
                block_bytes: 4 * SORT_NUM_BLOCKS,
                tex_width: SORT_TEX_WIDTH,
                tex_height: rows as i32,
            },
        )
    }

    /// Takes over what was set up on the device.
    pub fn install(&mut self, plan: &SortPlan, handles: SortHandles)
        ensures
            *final(self) == (SortGpu {
                ready: true,
                tex_width: plan.tex_width,
                tex_height: plan.tex_height,
                handles,
                ..*old(self)
            }),
    {
        self.handles = handles;
        self.tex_width = plan.tex_width;
        self.tex_height = plan.tex_height;
        self.ready = true;
    }

    /// Forgets everything on the device and starts over; what there is to sort is kept. The
    /// handles that come back have to be freed.
    pub fn teardown(&mut self) -> (freed: Vec<u64>)
        ensures
            freed@ == handles_to_free(old(self).handles),
            is_fresh(*final(self)),
            final(self).positions == old(self).positions,
            final(self).splat_count == old(self).splat_count,
    {
        let freed: Vec<u64> = self.handles.to_free();
        self.ready = false;
        self.attempted = false;
        self.enabled_in_shader = false;
        self.dispatched_once = false;
        self.per_eye_dispatched = false;
        self.front_is_b = true;
        self.last_sort_msec = 0;
        self.last_sort_cam_local = None;
        self.tex_width = 0;
        self.tex_height = 0;
        self.handles = SortHandles::none();
        freed
    }

    /// Gives the whole state away, as when an old draw keeps its sort for a while, and starts over.
    pub fn take(&mut self) -> (old_sort: SortGpu)
        ensures
            old_sort == *old(self),
            is_fresh(*final(self)),
            final(self).positions@.len() == 0,
            final(self).splat_count == 0,
    {
        let mut fresh = SortGpu::default();
        std::mem::swap(self, &mut fresh);
        fresh
    }

    /// Takes over what is to be sorted from a new render set.
    pub fn stash_inputs(&mut self, positions: Vec<u8>, splat_count: i32)
        ensures
            *final(self) == (SortGpu { positions, splat_count, attempted: false, ..*old(self) }),
    {
        self.positions = positions;
        self.splat_count = splat_count;
        self.attempted = false;
    }

    /// Whether this frame is to try to bring up the sort: it is not up, and was not tried yet.
    pub fn wants_attempt(&self) -> (result: bool)
        ensures
            result == (!self.ready && !self.attempted),
    {
        !self.ready && !self.attempted
    }

    /// Tries once to bring up the sort. Without known centers they are recovered from the data
    /// texture of the material, if there is one; what they span comes back then. What the sort
    /// needs on the device comes back where there is something to sort.
    pub fn try_enable(&mut self, texture: Option<&DataTexture>) -> (work: EnableWork)
        ensures
            work.setup == sort_plan_of(final(self).positions.len(), final(self).splat_count),
            match recoverable(*old(self), texture) {
                None => {
                    &&& work.bounds is None
                    &&& *final(self) == (SortGpu { attempted: true, ..*old(self) })
                },
                Some(data) => {
                    &&& work.bounds matches Some(bounds) && spans_centers(
                        bounds,
                        data.values@,
                        data.splat_count as int,
                    )
                    &&& final(self).positions@ == float_bytes(
                        texture_centers(data.values@, data.splat_count as int),
                    )
                    &&& *final(self) == (SortGpu {
                        attempted: true,
                        positions: final(self).positions,
                        splat_count: data.splat_count,
                        ..*old(self)
                    })
                },
            },
    {
        self.attempted = true;
        let mut bounds: Option<([F32; 3], [F32; 3])> = None;
        if self.positions.len() == 0 {
            if let Some(data) = texture {
                let found: Option<SortInputs> = sort_inputs_from_texture(
                    data.format,
                    data.values.as_slice(),
                    data.splat_count,
                );
                if let Some(inputs) = found {
                    self.positions = floats_to_bytes(&inputs.positions);
                    self.splat_count = data.splat_count;
                    bounds = Some((inputs.center_min, inputs.center_max));
                }
            }
        }
        let setup: Option<SortPlan> = self.plan_setup();
        EnableWork { bounds, setup }
    }

    /// What to run on the device for one sort.
    pub fn plan_dispatch(&self, eyes: &Vec<usize>) -> (plan: DispatchPlan)
        ensures
            is_dispatch(plan, *self, eyes@),
    {
        let mut scatter_sets: Vec<u64> = Vec::new();
        let ghost want = Seq::new(
            eyes@.len(),
            |i: int|
                scatter_handle(
                    self.handles,
                    target_of(eyes@.len() as int, self.front_is_b, eyes@[i] as int),
                ),
        );
        let one_view: bool = eyes.len() == 1;
        let mut i: usize = 0;
        while i < eyes.len()
            invariant
                i <= eyes@.len(),
                one_view == (eyes@.len() == 1),
                want == Seq::new(
                    eyes@.len(),
                    |i: int|
                        scatter_handle(
                            self.handles,
                            target_of(eyes@.len() as int, self.front_is_b, eyes@[i] as int),
                        ),
                ),
                scatter_sets@ == want.take(i as int),
            decreases eyes@.len() - i,
        {
            let into_b: bool = if one_view {
                !self.front_is_b
            } else {
                eyes[i] == 1
            };
            scatter_sets.push(
                if into_b {
                    self.handles.scatter_set_b
                } else {
                    self.handles.sets[4]
                },
            );
            i = i + 1;
            assert(scatter_sets@ =~= want.take(i as int));
        }
        let count: u32 = if self.splat_count <= 0 {
            0
        } else {
            self.splat_count as u32
        };
        let groups: u32 = (count + 255) / 256;
        let stages: Vec<(SortStage, u32)> = vec![
            (SortStage::Count, groups),
            (SortStage::ScanLocal, SORT_NUM_BLOCKS),
            (SortStage::ScanBlocksums, 1),
            (SortStage::ScanAdd, SORT_NUM_BLOCKS),
            (SortStage::Scatter, groups),
        ];
        assert(stages@ =~= stage_groups(self.splat_count));
        assert(scatter_sets@ =~= want);
        DispatchPlan { scatter_sets, stages, bucket_bytes: 4 * SORT_NUM_BUCKETS }
    }

    /// Whether the time since the last sort is long enough.
    pub fn sort_interval_elapsed(&self, now_msec: u64) -> (result: bool)
        ensures
            result == interval_over(self.last_sort_msec, now_msec),
    {
        self.last_sort_msec == 0 || (now_msec >= self.last_sort_msec && now_msec
            - self.last_sort_msec >= SORT_RESORT_MIN_INTERVAL_MS)
    }

    /// Goes through one frame: sorts if that is due, and points the material at the result.
    /// `eyes` are the views to sort for, `camera` is where the first of them is seen from, `moved`
    /// whether that is far enough from where the last sort saw it.
    pub fn frame(&mut self, eyes: &Vec<usize>, camera: [F32; 3], moved: bool, now_msec: u64) -> (work:
        FrameWork)
        ensures
            *final(self) == after_frame(*old(self), eyes@.len() as int, camera, moved, now_msec),
            work.dispatch is Some == frame_sorts(
                *old(self),
                eyes@.len() as int,
                moved,
                now_msec,
            ),
            work.dispatch matches Some(plan) ==> is_dispatch(plan, *old(self), eyes@),
            work.bind_material == (frame_turns_on(*old(self), eyes@.len() as int) || (frame_sorts(
                *old(self),
                eyes@.len() as int,
                moved,
                now_msec,
            ) && old(self).enabled_in_shader)),
    {
        if !self.ready || eyes.len() == 0 {
            return FrameWork { dispatch: None, bind_material: false };
        }
        let due: bool = self.last_sort_cam_local.is_none() || (moved && self.sort_interval_elapsed(
            now_msec,
        ));
        let mut dispatch: Option<DispatchPlan> = None;
        let mut bind_material: bool = false;
        if due {
            dispatch = Some(self.plan_dispatch(eyes));
            self.last_sort_cam_local = Some(camera);
            self.last_sort_msec = now_msec;
            if eyes.len() == 1 {
                self.front_is_b = !self.front_is_b;
                self.per_eye_dispatched = false;
            } else {
                self.per_eye_dispatched = true;
            }
            bind_material = self.enabled_in_shader;
        }
        if !self.enabled_in_shader {
            if self.dispatched_once {
                bind_material = true;
                self.enabled_in_shader = true;
            }
            self.dispatched_once = true;
        }
        FrameWork { dispatch, bind_material }
    }

    /// The textures that the material samples: for the first eye, and for the second.
    pub fn material_textures(&self) -> (textures: (SortTarget, SortTarget))
        ensures
            textures == sampled_textures(*self),
    {
        if self.per_eye_dispatched {
            (SortTarget::A, SortTarget::B)
        } else if self.front_is_b {
            (SortTarget::B, SortTarget::B)
        } else {
            (SortTarget::A, SortTarget::A)
        }
    }
}

/// A sort that was never set up has nothing to free.
pub proof fn fresh_sort_holds_nothing(sort: SortGpu)
    requires
        is_fresh(sort),
    ensures
        handles_to_free(sort.handles).len() == 0,
{
    let list = handle_list(sort.handles);
    assert(list.len() == 22);
    assert(list[18] == sort.handles.pos_buf);
    assert(list[16] == sort.handles.sort_tex);
    assert(list[11] == sort.handles.shaders[0]);
}

/// The sorts of a node: the current one, and that of the draw which stays visible until the current
/// one is sorted.
#[derive(Clone, Debug)]
pub struct SortSlots {
    pub sort: SortGpu,
    pub transition: Option<SortGpu>,
}

/// The handles that a sort which may be missing holds.
pub open spec fn slot_handles(sort: Option<SortGpu>) -> Seq<u64> {
    match sort {
        Some(sort) => handles_to_free(sort.handles),
        None => Seq::empty(),
    }
}

/// The handles that the sorts of a node hold.
pub open spec fn held_handles(slots: SortSlots) -> Seq<u64> {
    handles_to_free(slots.sort.handles) + slot_handles(slots.transition)
}

impl SortSlots {
    /// Keeps the current sort for the draw that stays visible, and starts over. What comes back,
    /// that of the draw which stayed visible before, has to be freed.
    pub fn preserve_for_draw_transition(&mut self) -> (freed: Vec<u64>)
        ensures
            final(self).transition == Some(old(self).sort),
            is_fresh(final(self).sort),
            final(self).sort.positions@.len() == 0,
            final(self).sort.splat_count == 0,
            freed@ == slot_handles(old(self).transition),
            held_handles(*final(self)) + freed@ == held_handles(*old(self)),
    {
        let freed: Vec<u64> = self.clear_transition();
        let kept: SortGpu = self.sort.take();
        self.transition = Some(kept);
        proof {
            fresh_sort_holds_nothing(self.sort);
            assert(held_handles(*self) + freed@ =~= held_handles(*old(self)));
        }
        freed
    }

    /// Gives up the sort of the draw that stayed visible. What comes back has to be freed.
    pub fn clear_transition(&mut self) -> (freed: Vec<u64>)
        ensures
            final(self).sort == old(self).sort,
            final(self).transition is None,
            freed@ == slot_handles(old(self).transition),
            held_handles(*final(self)) + freed@ == held_handles(*old(self)),
    {
        let freed: Vec<u64> = match &self.transition {
            Some(sort) => sort.handles.to_free(),
            None => Vec::new(),
        };
        self.transition = None;
        assert(held_handles(*self) + freed@ =~= held_handles(*old(self)));
        freed
    }
}

/// The words that a sort stage is given: the view by columns, the depth range, and the counts.
pub open spec fn push_constant_words(
    view: Seq<F32>,
    depth_min: F32,
    depth_inv_range: F32,
    count: i32,
    tex_width: i32,
) -> Seq<u32> {
    seq![
        view[0].bits,
        view[1].bits,
        view[2].bits,
        ZERO_BITS,
        view[3].bits,
        view[4].bits,
        view[5].bits,
        ZERO_BITS,
        view[6].bits,
        view[7].bits,
        view[8].bits,
        ZERO_BITS,
        view[9].bits,
        view[10].bits,
        view[11].bits,
        ONE_BITS,
        depth_min.bits,
        depth_inv_range.bits,
        SORT_NUM_BUCKETS,
        count as u32,
        tex_width as u32,
    ]
}

/// The bytes that a sort stage is given. `view` holds the three columns of the basis and the
/// origin.
pub fn build_sort_push_constant(
    view: &[F32; 12],
    depth_min: F32,
    depth_inv_range: F32,
    count: i32,
    tex_width: i32,
) -> (bytes: Vec<u8>)
    ensures
        bytes@ == words_bytes(
            push_constant_words(view@, depth_min, depth_inv_range, count, tex_width),
        ),
        bytes@.len() == 84,
{
    let words: Vec<F32> = vec![
        view[0],
        view[1],
        view[2],
        F32 { bits: ZERO_BITS },
        view[3],
        view[4],
        view[5],
        F32 { bits: ZERO_BITS },
        view[6],
        view[7],
        view[8],
        F32 { bits: ZERO_BITS },
        view[9],
        view[10],
        view[11],
        F32 { bits: ONE_BITS },
        depth_min,
        depth_inv_range,
        F32 { bits: SORT_NUM_BUCKETS },
        F32 { bits: count as u32 },
        F32 { bits: tex_width as u32 },
    ];
    assert(float_words(words@) =~= push_constant_words(
        view@,
        depth_min,
        depth_inv_range,
        count,
        tex_width,
    ));
    floats_to_bytes(&words)
}

/// The farthest of the distances that are finite, starting from zero.
pub open spec fn farthest_finite(distances: Seq<F32>) -> F32
    decreases distances.len(),
{
    if distances.len() == 0 {
        F32 { bits: ZERO_BITS }
    } else {
        let rest = farthest_finite(distances.drop_last());
        if distances.last().finite() {
            rest.larger(distances.last())
        } else {
            rest
        }
    }
}

/// The depths that are told apart: from zero, so that the range neither depends on where the viewer
/// looks nor on whether they are within the cloud, to the farthest corner, but not below the
/// shortest range.
pub fn depth_bounds(corner_distances: &[F32]) -> (range: (F32, F32))
    ensures
        range.0 == (F32 { bits: ZERO_BITS }),
        range.1 == farthest_finite(corner_distances@).larger(F32 { bits: MIN_DEPTH_RANGE_BITS }),
{
    let mut reach = F32 { bits: ZERO_BITS };
    let mut i: usize = 0;
    assert(corner_distances@.take(0) =~= Seq::empty());
    while i < corner_distances.len()
        invariant
            i <= corner_distances@.len(),
            reach == farthest_finite(corner_distances@.take(i as int)),
        decreases corner_distances@.len() - i,
    {
        assert(corner_distances@.take(i + 1).drop_last() =~= corner_distances@.take(i as int));
        if corner_distances[i].is_finite() {
            reach = reach.max(corner_distances[i]);
        }
        i = i + 1;
    }
    assert(corner_distances@.take(corner_distances@.len() as int) =~= corner_distances@);
    (F32 { bits: ZERO_BITS }, reach.max(F32 { bits: MIN_DEPTH_RANGE_BITS }))
}

/// What can be sorted of a data texture: the centers, each followed by one, and their bounds.
#[derive(Clone, Debug)]
pub struct SortInputs {
    pub positions: Vec<F32>,
    pub center_min: [F32; 3],
    pub center_max: [F32; 3],
}

/// The centers in a data texture without coefficients, each followed by one.
pub open spec fn texture_centers(values: Seq<F32>, count: int) -> Seq<F32> {
    Seq::new(
        (4 * count) as nat,
        |i: int|
            if i % 4 == 3 {
                F32 { bits: ONE_BITS }
            } else {
                values[16 * (i / 4) + i % 4]
            },
    )
}

/// Whether the bounds are those of the centers in a data texture without coefficients.
pub open spec fn spans_centers(
    bounds: ([F32; 3], [F32; 3]),
    values: Seq<F32>,
    count: int,
) -> bool {
    &&& bounds.0@ == seq![
        lowest(column(values, 16, 0, 0, count)),
        lowest(column(values, 16, 1, 0, count)),
        lowest(column(values, 16, 2, 0, count)),
    ]
    &&& bounds.1@ == seq![
        highest(column(values, 16, 0, 0, count)),
        highest(column(values, 16, 1, 0, count)),
        highest(column(values, 16, 2, 0, count)),
    ]
}

/// Recovers what can be sorted from a data texture. The texture has to be of single-precision
/// numbers and to hold as many splats as it is said to.
pub fn sort_inputs_from_texture(format: i32, values: &[F32], splat_count: i32) -> (inputs: Option<
    SortInputs,
>)
    ensures
        match inputs {
            None => splat_count <= 0 || format != 11 || values@.len() < 16 * splat_count,
            Some(found) => {
                &&& splat_count > 0 && format == 11 && values@.len() >= 16 * splat_count
                &&& found.positions@ == texture_centers(values@, splat_count as int)
                &&& spans_centers(
                    (found.center_min, found.center_max),
                    values@,
                    splat_count as int,
                )
            },
        },
{
    if splat_count <= 0 || format != rgbaf_format_ord() {
        return None;
    }
    let count: usize = splat_count as usize;
    if values.len() / 16 < count {
        return None;
    }
    let ghost want = texture_centers(values@, count as int);
    let mut positions: Vec<F32> = Vec::new();
    let mut i: usize = 0;
    assert(values.len() <= usize::MAX);
    while i < count
        invariant
            i <= count,
            16 * count <= values@.len() <= usize::MAX,
            want == texture_centers(values@, count as int),
            positions@.len() == 4 * i,
            forall|j: int| 0 <= j < positions@.len() ==> #[trigger] positions@[j] == want[j],
        decreases count - i,
    {
        positions.push(values[16 * i]);
        positions.push(values[16 * i + 1]);
        positions.push(values[16 * i + 2]);
        positions.push(F32 { bits: ONE_BITS });
        i = i + 1;
    }
    assert(positions@ =~= want);
    let (x0, x1): (F32, F32) = column_extent(values, 16, 0, 0, count);
    let (y0, y1): (F32, F32) = column_extent(values, 16, 1, 0, count);
    let (z0, z1): (F32, F32) = column_extent(values, 16, 2, 0, count);
    let center_min: [F32; 3] = [x0, y0, z0];
    let center_max: [F32; 3] = [x1, y1, z1];
    assert(center_min@ =~= seq![
        lowest(column(values@, 16, 0, 0, splat_count as int)),
        lowest(column(values@, 16, 1, 0, splat_count as int)),
        lowest(column(values@, 16, 2, 0, splat_count as int)),
    ]);
    assert(center_max@ =~= seq![
        highest(column(values@, 16, 0, 0, splat_count as int)),
        highest(column(values@, 16, 1, 0, splat_count as int)),
        highest(column(values@, 16, 2, 0, splat_count as int)),
    ]);
    Some(SortInputs { positions, center_min, center_max })
}

} // verus!
