//! What a node holds on the device: its draws and its sorts.

use crate::floats::F32;
use crate::node::gpu_sort::{
    fresh_sort_holds_nothing, handles_to_free, held_handles, is_fresh, slot_handles, SortGpu,
    SortSlots,
};
use crate::node::render_build::{held, ApplyPlan, DrawSlots, RawRenderData, SplatDraw};
use vstd::multiset::Multiset;
use vstd::prelude::*;

verus! {

/// What a node holds on the device.
#[derive(Clone, Debug)]
pub struct SplatRenderBackend {
    pub draws: DrawSlots,
    pub sorts: SortSlots,
}

/// What a node gives up on the device.
#[derive(Clone, Debug)]
pub struct Released {
    pub draws: Vec<SplatDraw>,
    pub handles: Vec<u64>,
}

/// Whether everything that is on the device is still held or was given up, and nothing was given
/// up twice. `added` are the draws that came in.
pub open spec fn nothing_is_lost(
    before: SplatRenderBackend,
    after: SplatRenderBackend,
    released: Released,
    added: Multiset<SplatDraw>,
) -> bool {
    &&& held(after.draws).add(released.draws@.to_multiset()) == held(before.draws).add(added)
    &&& held_handles(after.sorts).to_multiset().add(released.handles@.to_multiset())
        == held_handles(before.sorts).to_multiset()
}

/// Two runs one after the other hold what both hold, in either order.
proof fn lemma_runs(a: Seq<u64>, b: Seq<u64>)
    ensures
        (a + b).to_multiset() == a.to_multiset().add(b.to_multiset()),
{
    vstd::seq_lib::lemma_multiset_commutative(a, b);
}

impl Default for SplatRenderBackend {
    fn default() -> (backend: SplatRenderBackend)
        ensures
            backend.draws.current is None,
            backend.draws.transition is None,
            is_fresh(backend.sorts.sort),
            backend.sorts.sort.positions@.len() == 0,
            backend.sorts.sort.splat_count == 0,
            backend.sorts.transition is None,
    {
        SplatRenderBackend {
            draws: DrawSlots { current: None, transition: None },
            sorts: SortSlots { sort: SortGpu::default(), transition: None },
        }
    }
}

impl SplatRenderBackend {
    /// A finished render set takes over: its draw becomes the current one, and its centers are
    /// what is sorted from now on. The old sort is kept for the old draw where the plan says so,
    /// and torn down otherwise.
    pub fn take_over(&mut self, draw: SplatDraw, plan: &ApplyPlan, positions: Vec<u8>) -> (released:
        Released)
        ensures
            final(self).draws.current == Some(draw),
            final(self).draws.transition == (if plan.transition_to_sorted {
                if old(self).draws.transition is None {
                    old(self).draws.current
                } else {
                    old(self).draws.transition
                }
            } else {
                None
            }),
            is_fresh(final(self).sorts.sort),
            final(self).sorts.sort.positions == positions,
            final(self).sorts.sort.splat_count == draw.splat_count,
            final(self).sorts.transition == (if plan.preserve_sort {
                Some(old(self).sorts.sort)
            } else {
                old(self).sorts.transition
            }),
            nothing_is_lost(
                *old(self),
                *final(self),
                released,
                Multiset::empty().insert(draw),
            ),
    {
        broadcast use vstd::multiset::group_multiset_axioms;

        let handles: Vec<u64> = if plan.preserve_sort {
            self.sorts.preserve_for_draw_transition()
        } else {
            self.sorts.sort.teardown()
        };
        let draws: Vec<SplatDraw> = self.draws.replace(draw, plan.transition_to_sorted);
        proof {
            fresh_sort_holds_nothing(self.sorts.sort);
        }
        self.sorts.sort.stash_inputs(positions, draw.splat_count);
        proof {
            fresh_sort_holds_nothing(self.sorts.sort);
            let before = held_handles(old(self).sorts);
            let after = held_handles(self.sorts);
            lemma_runs(after, handles@);
            lemma_runs(
                handles_to_free(old(self).sorts.sort.handles),
                slot_handles(old(self).sorts.transition),
            );
            if plan.preserve_sort {
                assert(after + handles@ =~= before);
            } else {
                assert(after =~= slot_handles(old(self).sorts.transition));
            }
            assert(after.to_multiset().add(handles@.to_multiset()) =~= before.to_multiset());
            assert(held(old(self).draws).insert(draw) =~= held(old(self).draws).add(
                Multiset::empty().insert(draw),
            ));
        }
        Released { draws, handles }
    }

    /// Gives up all draws, and the sort of the draw that stayed visible.
    pub fn clear(&mut self) -> (released: Released)
        ensures
            final(self).draws.current is None,
            final(self).draws.transition is None,
            final(self).sorts.sort == old(self).sorts.sort,
            final(self).sorts.transition is None,
            nothing_is_lost(*old(self), *final(self), released, Multiset::empty()),
    {
        let draws: Vec<SplatDraw> = self.draws.clear();
        let handles: Vec<u64> = self.sorts.clear_transition();
        proof {
            lemma_runs(held_handles(self.sorts), handles@);
            assert(held(old(self).draws).add(Multiset::empty()) =~= held(old(self).draws));
        }
        Released { draws, handles }
    }

    /// The current draw is sorted and can be seen: the draw that stood in for it is given up with
    /// its sort. Without a current draw nothing happens.
    pub fn finish_transition(&mut self) -> (released: Released)
        ensures
            final(self).draws.current == old(self).draws.current,
            final(self).sorts.sort == old(self).sorts.sort,
            old(self).draws.current is Some ==> final(self).draws.transition is None
                && final(self).sorts.transition is None,
            old(self).draws.current is None ==> *final(self) == *old(self),
            nothing_is_lost(*old(self), *final(self), released, Multiset::empty()),
    {
        if self.draws.current.is_none() {
            let draws: Vec<SplatDraw> = Vec::new();
            let handles: Vec<u64> = Vec::new();
            proof {
                assert(held_handles(self.sorts) + handles@ =~= held_handles(self.sorts));
                lemma_runs(held_handles(self.sorts), handles@);
                assert(draws@ =~= Seq::empty());
                draws@.to_multiset_ensures();
                assert(held(self.draws).add(draws@.to_multiset()) =~= held(self.draws).add(
                    Multiset::empty(),
                ));
            }
            return Released { draws, handles };
        }
        let draws: Vec<SplatDraw> = self.draws.finish_transition();
        let handles: Vec<u64> = self.sorts.clear_transition();
        proof {
            lemma_runs(held_handles(self.sorts), handles@);
            assert(held(old(self).draws).add(Multiset::empty()) =~= held(old(self).draws));
        }
        Released { draws, handles }
    }
}

/// What a parameter of the material is.
#[derive(Clone, Copy, Debug, PartialEq, Eq)]
pub enum MaterialValue {
    Int(i32),
    Float(F32),
    Vector([F32; 3]),
}

/// A parameter of the material.
#[derive(Clone, Copy, Debug)]
pub struct MaterialParam {
    pub name: &'static str,
    pub value: MaterialValue,
}

/// The parameters that tell the shader how to read a render set. It starts unsorted.
pub open spec fn render_params(render: RawRenderData, depth_mode: i32) -> Seq<
    (Seq<char>, MaterialValue),
> {
    seq![
        ("splat_count"@, MaterialValue::Int(render.splat_count)),
        ("sh_degree"@, MaterialValue::Int(render.sh_degree)),
        ("data_encoding"@, MaterialValue::Int(render.data_encoding)),
        ("packed_record_bytes"@, MaterialValue::Int(render.packed_record_bytes)),
        ("position_min"@, MaterialValue::Vector(render.ranges.position_min)),
        ("position_max"@, MaterialValue::Vector(render.ranges.position_max)),
        ("scale_min"@, MaterialValue::Vector(render.ranges.scale_min)),
        ("scale_max"@, MaterialValue::Vector(render.ranges.scale_max)),
        ("sh_min"@, MaterialValue::Float(render.ranges.sh_min)),
        ("sh_max"@, MaterialValue::Float(render.ranges.sh_max)),
        ("sort_enabled"@, MaterialValue::Int(0)),
        ("sort_per_eye"@, MaterialValue::Int(0)),
        ("splat_depth_mode"@, MaterialValue::Int(depth_mode)),
    ]
}

/// The names and values of parameters.
pub open spec fn params_view(params: Seq<MaterialParam>) -> Seq<(Seq<char>, MaterialValue)> {
    Seq::new(params.len(), |i: int| (params[i].name@, params[i].value))
}

/// The parameters that tell the shader how to read a render set.
pub fn material_params(render: &RawRenderData, depth_mode: i32) -> (params: Vec<MaterialParam>)
    ensures
        params_view(params@) == render_params(*render, depth_mode),
{
    let params: Vec<MaterialParam> = vec![
        MaterialParam { name: "splat_count", value: MaterialValue::Int(render.splat_count) },
        MaterialParam { name: "sh_degree", value: MaterialValue::Int(render.sh_degree) },
        MaterialParam { name: "data_encoding", value: MaterialValue::Int(render.data_encoding) },
        MaterialParam {
            name: "packed_record_bytes",
            value: MaterialValue::Int(render.packed_record_bytes),
        },
        MaterialParam {
            name: "position_min",
            value: MaterialValue::Vector(render.ranges.position_min),
        },
        MaterialParam {
            name: "position_max",
            value: MaterialValue::Vector(render.ranges.position_max),
        },
        MaterialParam { name: "scale_min", value: MaterialValue::Vector(render.ranges.scale_min) },
        MaterialParam { name: "scale_max", value: MaterialValue::Vector(render.ranges.scale_max) },
        MaterialParam { name: "sh_min", value: MaterialValue::Float(render.ranges.sh_min) },
        MaterialParam { name: "sh_max", value: MaterialValue::Float(render.ranges.sh_max) },
        MaterialParam { name: "sort_enabled", value: MaterialValue::Int(0) },
        MaterialParam { name: "sort_per_eye", value: MaterialValue::Int(0) },
        MaterialParam { name: "splat_depth_mode", value: MaterialValue::Int(depth_mode) },
    ];
    assert(params_view(params@) =~= render_params(*render, depth_mode));
    params
}

/// The flags that tell the shader whether to sample the sorted order, and whether there is one for
/// each eye.
pub fn sort_flags(sort: &SortGpu, enabled: bool) -> (flags: (i32, i32))
    ensures
        flags.0 == (if enabled {
            1i32
        } else {
            0
        }),
        flags.1 == (if enabled && sort.per_eye_dispatched {
            1i32
        } else {
            0
        }),
{
    if !enabled {
        (0, 0)
    } else if sort.per_eye_dispatched {
        (1, 1)
    } else {
        (1, 0)
    }
}

} // verus!
