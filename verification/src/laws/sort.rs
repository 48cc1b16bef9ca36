//! The depth sort: every splat is sorted, into the order that is sampled, when it is due.

use crate::bytes::{lemma_word_at_words, word_at, words_bytes};
use crate::floats::F32;
use crate::laws::numbers::columns_are_enclosed;
use crate::node::gpu_sort::{
    abandon_list, after_frame, bindings_of, farthest_finite, frame_sorts, frame_turns_on,
    handle_list, handles_to_free, interval_over, is_dispatch, no_handles, push_constant_words, recoverable,
    sampled_textures, slot_of, sort_plan_of, spans_centers, texture_centers, valid_handles,
    DataTexture, DispatchPlan, SortBinding, SortGpu, SortHandles, SortStage, SortTarget,
    MIN_DEPTH_RANGE_BITS,
};
use vstd::prelude::*;

verus! {

/// Every splat has an invocation of its own in the stage that counts and in the one that scatters,
/// no workgroup is without a splat, every bucket is scanned, and every block of buckets has its sum
/// added. The stages run one after the other, each on what the one before it left.
pub proof fn every_splat_is_sorted(plan: DispatchPlan, sort: SortGpu, eyes: Seq<usize>)
    requires
        is_dispatch(plan, sort, eyes),
    ensures
        plan.stages@.len() == 5,
        plan.stages@[0].0 == SortStage::Count,
        plan.stages@[1].0 == SortStage::ScanLocal,
        plan.stages@[2].0 == SortStage::ScanBlocksums,
        plan.stages@[3].0 == SortStage::ScanAdd,
        plan.stages@[4].0 == SortStage::Scatter,
        sort.splat_count >= 0 ==> sort.splat_count <= plan.stages@[0].1 * 256 < sort.splat_count
            + 256,
        sort.splat_count >= 0 ==> sort.splat_count <= plan.stages@[4].1 * 256 < sort.splat_count
            + 256,
        sort.splat_count < 0 ==> plan.stages@[0].1 == 0 && plan.stages@[4].1 == 0,
        plan.stages@[1].1 * 1024 == 65536,
        plan.stages@[2].1 == 1,
        plan.stages@[3].1 * 1024 == 65536,
        plan.bucket_bytes == 65536 * 4,
        plan.scatter_sets@.len() == eyes.len(),
{
}

/// The order for an eye is written to the texture that is sampled for that eye from then on, and
/// with one view that is not the texture which was sampled until then.
pub proof fn sorted_order_is_the_one_sampled(
    plan: DispatchPlan,
    sort: SortGpu,
    eyes: Seq<usize>,
    camera: [F32; 3],
    moved: bool,
    now: u64,
    i: int,
)
    requires
        is_dispatch(plan, sort, eyes),
        frame_sorts(sort, eyes.len() as int, moved, now),
        0 <= i < eyes.len(),
        eyes.len() > 1 ==> eyes[i] < 2,
    ensures
        ({
            let next = after_frame(sort, eyes.len() as int, camera, moved, now);
            let sampled = if eyes[i] == 1 {
                sampled_textures(next).1
            } else {
                sampled_textures(next).0
            };
            &&& sampled == SortTarget::A ==> plan.scatter_sets@[i] == sort.handles.sets[4]
            &&& sampled == SortTarget::B ==> plan.scatter_sets@[i] == sort.handles.scatter_set_b
            &&& eyes.len() == 1 && !sort.per_eye_dispatched ==> sampled != sampled_textures(sort).0
            &&& eyes.len() == 1 ==> sampled_textures(next).0 == sampled_textures(next).1
            &&& eyes.len() > 1 ==> sampled_textures(next).0 != sampled_textures(next).1
        }),
{
}

/// Each thing that the sort keeps is bound to the stages that read or write it and to no other, in
/// a slot of its own, and no stage is bound to a thing twice.
pub proof fn stages_find_what_they_work_on(stage: SortStage, binding: SortBinding)
    ensures
        bindings_of(stage).no_duplicates(),
        bindings_of(stage).contains(SortBinding::Positions) <==> (stage == SortStage::Count || stage
            == SortStage::Scatter),
        bindings_of(stage).contains(SortBinding::Histogram) <==> (stage == SortStage::Count || stage
            == SortStage::ScanLocal),
        bindings_of(stage).contains(SortBinding::Offsets) <==> (stage == SortStage::ScanLocal
            || stage == SortStage::ScanAdd || stage == SortStage::Scatter),
        bindings_of(stage).contains(SortBinding::BlockSums) <==> (stage == SortStage::ScanLocal
            || stage == SortStage::ScanBlocksums || stage == SortStage::ScanAdd),
        bindings_of(stage).contains(SortBinding::SortImage) <==> stage == SortStage::Scatter,
        0 <= slot_of(SortBinding::Positions) < slot_of(SortBinding::Histogram) < slot_of(
            SortBinding::Offsets,
        ) < slot_of(SortBinding::SortImage) < slot_of(SortBinding::BlockSums) < 5,
{
    let all = bindings_of(stage);
    if stage == SortStage::Count {
        assert(all[0] == SortBinding::Positions && all[1] == SortBinding::Histogram);
    } else if stage == SortStage::ScanLocal {
        assert(all[0] == SortBinding::Histogram && all[1] == SortBinding::Offsets && all[2]
            == SortBinding::BlockSums);
    } else if stage == SortStage::ScanBlocksums {
        assert(all[0] == SortBinding::BlockSums);
    } else if stage == SortStage::ScanAdd {
        assert(all[0] == SortBinding::Offsets && all[1] == SortBinding::BlockSums);
    } else {
        assert(all[0] == SortBinding::Positions && all[1] == SortBinding::Offsets && all[2]
            == SortBinding::SortImage);
    }
}

/// What a stage is given is read back as a shader reads it: a matrix of four columns, the basis and
/// the origin, the last row being that of a point; the depth range; the buckets; the splats; the
/// texels of a row.
pub proof fn stages_read_what_they_are_given(
    view: Seq<F32>,
    depth_min: F32,
    depth_inv_range: F32,
    count: i32,
    tex_width: i32,
)
    requires
        view.len() == 12,
    ensures
        ({
            let bytes = words_bytes(
                push_constant_words(view, depth_min, depth_inv_range, count, tex_width),
            );
            &&& bytes.len() == 84
            &&& word_at(bytes, 0) == view[0].bits && word_at(bytes, 4) == view[1].bits
            &&& word_at(bytes, 8) == view[2].bits && word_at(bytes, 16) == view[3].bits
            &&& word_at(bytes, 20) == view[4].bits && word_at(bytes, 24) == view[5].bits
            &&& word_at(bytes, 32) == view[6].bits && word_at(bytes, 36) == view[7].bits
            &&& word_at(bytes, 40) == view[8].bits && word_at(bytes, 48) == view[9].bits
            &&& word_at(bytes, 52) == view[10].bits && word_at(bytes, 56) == view[11].bits
            &&& word_at(bytes, 12) == 0 && word_at(bytes, 28) == 0 && word_at(bytes, 44) == 0
            &&& word_at(bytes, 60) == 0x3f80_0000
            &&& word_at(bytes, 64) == depth_min.bits
            &&& word_at(bytes, 68) == depth_inv_range.bits
            &&& word_at(bytes, 72) == 65536
            &&& count >= 0 ==> word_at(bytes, 76) == count
            &&& tex_width >= 0 ==> word_at(bytes, 80) == tex_width
        }),
{
    let words = push_constant_words(view, depth_min, depth_inv_range, count, tex_width);
    let bytes = words_bytes(words);
    lemma_words_at(words);
    assert(words[0] == word_at(bytes, 0) && words[1] == word_at(bytes, 4) && words[2] == word_at(
        bytes,
        8,
    ) && words[3] == word_at(bytes, 12));
    assert(words[4] == word_at(bytes, 16) && words[5] == word_at(bytes, 20) && words[6] == word_at(
        bytes,
        24,
    ) && words[7] == word_at(bytes, 28));
    assert(words[8] == word_at(bytes, 32) && words[9] == word_at(bytes, 36) && words[10] == word_at(
        bytes,
        40,
    ) && words[11] == word_at(bytes, 44));
    assert(words[12] == word_at(bytes, 48) && words[13] == word_at(bytes, 52) && words[14]
        == word_at(bytes, 56) && words[15] == word_at(bytes, 60));
    assert(words[16] == word_at(bytes, 64) && words[17] == word_at(bytes, 68) && words[18]
        == word_at(bytes, 72) && words[19] == word_at(bytes, 76) && words[20] == word_at(
        bytes,
        80,
    ));
}

proof fn lemma_words_at(words: Seq<u32>)
    ensures
        words_bytes(words).len() == 4 * words.len(),
        forall|i: int|
            0 <= i < words.len() ==> #[trigger] words[i] == word_at(words_bytes(words), 4 * i),
{
    assert forall|i: int| 0 <= i < words.len() implies #[trigger] words[i] == word_at(
        words_bytes(words),
        4 * i,
    ) by {
        lemma_word_at_words(words, i);
    }
}

/// Every finite distance lies within the depth range, which ends at the farthest of them unless
/// that is too near.
pub proof fn depths_reach_every_corner(distances: Seq<F32>)
    ensures
        ({
            let shortest = F32 { bits: MIN_DEPTH_RANGE_BITS };
            let reach = farthest_finite(distances).larger(shortest);
            &&& shortest.bits == 0x38d1_b717
            &&& shortest.at_most(reach)
            &&& forall|i: int|
                0 <= i < distances.len() && (#[trigger] distances[i]).finite()
                    ==> distances[i].at_most(reach)
            &&& reach == shortest || exists|i: int|
                0 <= i < distances.len() && #[trigger] distances[i] == reach && reach.finite()
        }),
{
    lemma_farthest(distances);
}

proof fn lemma_farthest(distances: Seq<F32>)
    ensures
        farthest_finite(distances).finite(),
        forall|i: int|
            0 <= i < distances.len() && (#[trigger] distances[i]).finite()
                ==> distances[i].at_most(farthest_finite(distances)),
        farthest_finite(distances).bits == 0 || exists|i: int|
            0 <= i < distances.len() && #[trigger] distances[i] == farthest_finite(distances),
    decreases distances.len(),
{
    if distances.len() > 0 {
        let rest = distances.drop_last();
        lemma_farthest(rest);
        let last = distances.len() - 1;
        assert(distances[last] == distances.last());
        assert forall|i: int|
            0 <= i < distances.len() && (#[trigger] distances[i]).finite() implies distances[i].at_most(
            farthest_finite(distances),
        ) by {
            if i < last {
                assert(rest[i] == distances[i]);
            }
        }
        if farthest_finite(rest).bits != 0 {
            let k = choose|k: int|
                0 <= k < rest.len() && #[trigger] rest[k] == farthest_finite(rest);
            assert(distances[k] == farthest_finite(rest));
        }
    }
}

/// Where there is something to sort, every splat has a texel of its own in the order, no row is
/// without a splat, every bucket has a counter, and every block of buckets a sum.
pub proof fn every_splat_has_a_texel(positions_len: usize, splat_count: i32)
    ensures
        sort_plan_of(positions_len, splat_count) is Some <==> splat_count > 0 && positions_len > 0,
        sort_plan_of(positions_len, splat_count) matches Some(plan) ==> {
            &&& plan.tex_width == 4096
            &&& (plan.tex_height - 1) * 4096 < splat_count <= plan.tex_height * 4096
            &&& plan.bucket_bytes == 4 * 65536
            &&& plan.block_bytes * 1024 == plan.bucket_bytes
            &&& positions_len <= u32::MAX ==> plan.position_bytes == positions_len
        },
{
}

/// The centers that are recovered from a texture are those of its splats, in order, each followed
/// by one.
pub proof fn recovered_centers_are_those_of_the_splats(
    values: Seq<F32>,
    count: int,
    splat: int,
    k: int,
)
    requires
        0 <= splat < count,
        0 <= k < 3,
    ensures
        texture_centers(values, count).len() == 4 * count,
        texture_centers(values, count)[4 * splat + k] == values[16 * splat + k],
        texture_centers(values, count)[4 * splat + 3].bits == 0x3f80_0000,
{
}

/// The bounds of recovered centers enclose each of them and no more than they take up.
pub proof fn recovered_bounds_enclose_the_centers(
    bounds: ([F32; 3], [F32; 3]),
    values: Seq<F32>,
    count: int,
    splat: int,
    k: int,
)
    requires
        spans_centers(bounds, values, count),
        0 <= splat < count,
        0 <= k < 3,
        !values[16 * splat + k].nan(),
    ensures
        bounds.0[k].at_most(values[16 * splat + k]),
        values[16 * splat + k].at_most(bounds.1[k]),
        exists|s: int| 0 <= s < count && #[trigger] values[s * 16 + k] == bounds.0[k],
        exists|s: int| 0 <= s < count && #[trigger] values[s * 16 + k] == bounds.1[k],
{
    columns_are_enclosed(values, 16, k, 0, count);
    assert(values[splat * 16 + k] == values[16 * splat + k]);
    assert(bounds.0@[k] == bounds.0[k] && bounds.1@[k] == bounds.1[k]);
}

/// Whether a handle is one of those that a sort holds.
pub open spec fn is_held(h: SortHandles, rid: u64) -> bool {
    ||| rid == h.pos_buf || rid == h.hist_buf || rid == h.off_buf || rid == h.blocks_buf
    ||| rid == h.sort_tex || rid == h.sort_tex_b || rid == h.scatter_set_b
    ||| h.shaders@.contains(rid) || h.pipelines@.contains(rid) || h.sets@.contains(rid)
}

/// Whether a handle is one of those that there may be before anything is bound together.
pub open spec fn is_held_early(h: SortHandles, rid: u64) -> bool {
    ||| rid == h.pos_buf || rid == h.hist_buf || rid == h.off_buf || rid == h.blocks_buf
    ||| rid == h.sort_tex || rid == h.sort_tex_b
    ||| h.shaders@.contains(rid) || h.pipelines@.contains(rid)
}

/// What is freed is what is held, all of it and nothing else: of a sort that was set up, and of one
/// that was given up halfway.
pub proof fn everything_held_is_freed(h: SortHandles, rid: u64)
    ensures
        rid != 0 && is_held(h, rid) && (h.pos_buf != 0 || h.shaders[0] != 0 || h.sort_tex != 0)
            ==> handles_to_free(h).contains(rid),
        handles_to_free(h).contains(rid) ==> rid != 0 && is_held(h, rid),
        rid != 0 && is_held_early(h, rid) ==> valid_handles(abandon_list(h)).contains(rid),
        valid_handles(abandon_list(h)).contains(rid) ==> rid != 0 && is_held_early(h, rid),
        handle_list(h).len() == 22,
        abandon_list(h).len() == 16,
{
    broadcast use vstd::seq_lib::group_filter_ensures;
    let all = handle_list(h);
    let early = abandon_list(h);
    assert(all.contains(rid) <==> is_held(h, rid)) by {
        if h.sets@.contains(rid) {
            let k = choose|k: int| 0 <= k < 5 && h.sets@[k] == rid;
            assert(all[k] == rid);
        }
        if h.pipelines@.contains(rid) {
            let k = choose|k: int| 0 <= k < 5 && h.pipelines@[k] == rid;
            assert(all[6 + k] == rid);
        }
        if h.shaders@.contains(rid) {
            let k = choose|k: int| 0 <= k < 5 && h.shaders@[k] == rid;
            assert(all[11 + k] == rid);
        }
        assert(all[5] == h.scatter_set_b && all[16] == h.sort_tex && all[17] == h.sort_tex_b);
        assert(all[18] == h.pos_buf && all[19] == h.hist_buf && all[20] == h.off_buf);
        assert(all[21] == h.blocks_buf);
        if all.contains(rid) {
            let k = choose|k: int| 0 <= k < all.len() && all[k] == rid;
            if k < 5 {
                assert(h.sets@[k] == rid);
            } else if 6 <= k < 11 {
                assert(h.pipelines@[k - 6] == rid);
            } else if 11 <= k < 16 {
                assert(h.shaders@[k - 11] == rid);
            }
        }
    }
    assert(early.contains(rid) <==> is_held_early(h, rid)) by {
        if h.shaders@.contains(rid) {
            let k = choose|k: int| 0 <= k < 5 && h.shaders@[k] == rid;
            assert(early[k] == rid);
        }
        if h.pipelines@.contains(rid) {
            let k = choose|k: int| 0 <= k < 5 && h.pipelines@[k] == rid;
            assert(early[5 + k] == rid);
        }
        assert(early[10] == h.pos_buf && early[11] == h.hist_buf && early[12] == h.off_buf);
        assert(early[13] == h.blocks_buf && early[14] == h.sort_tex && early[15] == h.sort_tex_b);
        if early.contains(rid) {
            let k = choose|k: int| 0 <= k < early.len() && early[k] == rid;
            if k < 5 {
                assert(h.shaders@[k] == rid);
            } else if k < 10 {
                assert(h.pipelines@[k - 5] == rid);
            }
        }
    }
    lemma_valid(all, rid);
    lemma_valid(early, rid);
}

proof fn lemma_valid(list: Seq<u64>, rid: u64)
    ensures
        valid_handles(list).contains(rid) <==> rid != 0 && list.contains(rid),
    decreases list.len(),
{
    reveal(Seq::filter);
    if list.len() > 0 {
        let rest = list.drop_last();
        lemma_valid(rest, rid);
        assert(list[list.len() - 1] == list.last());
        if rest.contains(rid) {
            let k = choose|k: int| 0 <= k < rest.len() && rest[k] == rid;
            assert(list[k] == rid);
        }
        if list.contains(rid) && rid != list.last() {
            let k = choose|k: int| 0 <= k < list.len() && list[k] == rid;
            assert(rest[k] == rid);
        }
        let kept = valid_handles(rest);
        if list.last() != 0 {
            assert(valid_handles(list) == kept.push(list.last()));
            assert(kept.push(list.last())[kept.len() as int] == list.last());
            if kept.contains(rid) {
                let k = choose|k: int| 0 <= k < kept.len() && kept[k] == rid;
                assert(kept.push(list.last())[k] == rid);
            }
        }
    }
}

/// The first frame with a view sorts. After a sort, the next comes when the camera has moved and a
/// fifth of a second has passed, not before, and from where the camera is then.
pub proof fn sorts_keep_their_distance(
    sort: SortGpu,
    views: int,
    camera: [F32; 3],
    moved: bool,
    then_moved: bool,
    now: u64,
    later: u64,
)
    requires
        sort.ready,
        views > 0,
        now > 0,
        now <= later,
    ensures
        !frame_sorts(SortGpu { ready: false, ..sort }, views, moved, now),
        !frame_sorts(sort, 0, moved, now),
        sort.last_sort_cam_local is None ==> frame_sorts(sort, views, moved, now),
        frame_sorts(sort, views, moved, now) ==> ({
            let next = after_frame(sort, views, camera, moved, now);
            &&& next.last_sort_cam_local == Some(camera)
            &&& next.last_sort_msec == now
            &&& frame_sorts(next, views, then_moved, later) <==> then_moved && later >= now + 200
        }),
        !frame_sorts(sort, views, moved, now) ==> ({
            let next = after_frame(sort, views, camera, moved, now);
            &&& next.last_sort_cam_local == sort.last_sort_cam_local
            &&& next.last_sort_msec == sort.last_sort_msec
            &&& next.front_is_b == sort.front_is_b
            &&& next.per_eye_dispatched == sort.per_eye_dispatched
        }),
        interval_over(now, later) <==> later >= now + 200,
        interval_over(0, later),
{
}

/// The sorted order is sampled from the second frame on, and goes on being sampled.
pub proof fn sampling_waits_for_a_frame(
    sort: SortGpu,
    views: int,
    camera: [F32; 3],
    moved: bool,
    now: u64,
)
    requires
        views > 0,
        sort.ready,
    ensures
        ({
            let first = after_frame(sort, views, camera, moved, now);
            let second = after_frame(first, views, camera, moved, now);
            &&& !sort.enabled_in_shader && !sort.dispatched_once ==> !first.enabled_in_shader
                && !frame_turns_on(sort, views)
            &&& second.enabled_in_shader
            &&& sort.enabled_in_shader ==> first.enabled_in_shader && !frame_turns_on(sort, views)
            &&& first.ready && first.handles == sort.handles && first.positions == sort.positions
            &&& first.splat_count == sort.splat_count && first.tex_width == sort.tex_width
            &&& first.tex_height == sort.tex_height && first.attempted == sort.attempted
        }),
        after_frame(sort, 0, camera, moved, now) == sort,
        !sort.enabled_in_shader && sort.dispatched_once ==> frame_turns_on(sort, views)
            && after_frame(sort, views, camera, moved, now).enabled_in_shader,
        !frame_turns_on(sort, 0),
        !frame_turns_on(SortGpu { ready: false, ..sort }, views),
{
}

/// Centers are recovered only where none are known, and only from a texture of single-precision
/// numbers that holds all its splats.
pub proof fn known_centers_are_kept(sort: SortGpu, data: DataTexture)
    ensures
        recoverable(sort, None) is None,
        sort.positions@.len() > 0 ==> recoverable(sort, Some(&data)) is None,
        sort.positions@.len() == 0 ==> (recoverable(sort, Some(&data)) is Some
            <==> data.splat_count > 0 && data.format == 11 && data.values@.len() >= 16
            * data.splat_count),
        recoverable(sort, Some(&data)) matches Some(found) ==> found == data,
{
}

/// Nothing is held exactly where every handle is zero.
pub proof fn no_handles_are_all_zero(handles: SortHandles, i: int)
    requires
        0 <= i < handle_list(handles).len(),
    ensures
        no_handles(handles) ==> handle_list(handles)[i] == 0,
        (forall|j: int|
            0 <= j < handle_list(handles).len() ==> #[trigger] handle_list(handles)[j] == 0)
            ==> no_handles(handles),
{
}

} // verus!
