//! Which splats a level of detail keeps, and how a splat's record is laid out.

use crate::chunking::{cell_code, encode_cell, lemma_cell_code, ChunkEntry};
use crate::gsplat_pack::layout::least;
use crate::gsplat_pack::{packed_record_bytes, record_size, sh_count, sh_floats};
use std::collections::HashSet;
use vstd::prelude::*;

verus! {

broadcast use vstd::std_specs::hash::group_hash_axioms;

/// A splat whose fields are already spread over their integer ranges.
#[derive(Clone, Debug, PartialEq, Eq)]
pub struct QuantizedSplat {
    pub position: [u16; 3],
    pub scale: [u16; 3],
    pub rotation: [i16; 4],
    pub color: [u8; 4],
    pub sh: Vec<u8>,
}

/// Byte `k` of a 16-bit integer, counted from the least significant one.
pub open spec fn half_byte(value: u16, k: int) -> u8 {
    if k == 0 {
        (value % 256) as u8
    } else {
        (value / 256) as u8
    }
}

/// The record of a splat: position, scale, rotation, color, coefficients, and zeros up to the
/// record's size.
pub open spec fn splat_record(splat: QuantizedSplat, degree: int) -> Seq<u8> {
    Seq::new(
        record_size(degree) as nat,
        |i: int|
            if i < 6 {
                half_byte(splat.position[i / 2], i % 2)
            } else if i < 12 {
                half_byte(splat.scale[(i - 6) / 2], i % 2)
            } else if i < 20 {
                half_byte(splat.rotation[(i - 12) / 2] as u16, i % 2)
            } else if i < 24 {
                splat.color[i - 20]
            } else if i < 24 + sh_count(degree) {
                splat.sh[i - 24]
            } else {
                0
            },
    )
}

/// Overwrites the two bytes at `offset` with `value`.
pub fn write_u16_bytes(out: &mut Vec<u8>, offset: usize, value: u16)
    requires
        offset + 1 < old(out)@.len(),
    ensures
        final(out)@ == old(out)@.update(offset as int, half_byte(value, 0)).update(
            offset + 1,
            half_byte(value, 1),
        ),
{
    assert(offset + 1 < out.len());
    out.set(offset, (value % 256) as u8);
    out.set(offset + 1, (value / 256) as u8);
}

/// Overwrites the two bytes at `offset` with `value`.
pub fn write_i16_bytes(out: &mut Vec<u8>, offset: usize, value: i16)
    requires
        offset + 1 < old(out)@.len(),
    ensures
        final(out)@ == old(out)@.update(offset as int, half_byte(value as u16, 0)).update(
            offset + 1,
            half_byte(value as u16, 1),
        ),
{
    write_u16_bytes(out, offset, value as u16);
}

/// Lays out the record of a splat.
pub fn encode_record(splat: &QuantizedSplat, sh_degree_available: i32) -> (record: Vec<u8>)
    requires
        splat.sh@.len() == sh_count(sh_degree_available as int),
    ensures
        record@ == splat_record(*splat, sh_degree_available as int),
{
    let size: usize = packed_record_bytes(sh_degree_available);
    let coefficients: usize = sh_floats(sh_degree_available);
    let ghost want = splat_record(*splat, sh_degree_available as int);
    let mut record: Vec<u8> = vec![0; size];
    write_u16_bytes(&mut record, 0, splat.position[0]);
    write_u16_bytes(&mut record, 2, splat.position[1]);
    write_u16_bytes(&mut record, 4, splat.position[2]);
    write_u16_bytes(&mut record, 6, splat.scale[0]);
    write_u16_bytes(&mut record, 8, splat.scale[1]);
    write_u16_bytes(&mut record, 10, splat.scale[2]);
    write_i16_bytes(&mut record, 12, splat.rotation[0]);
    write_i16_bytes(&mut record, 14, splat.rotation[1]);
    write_i16_bytes(&mut record, 16, splat.rotation[2]);
    write_i16_bytes(&mut record, 18, splat.rotation[3]);
    record.set(20, splat.color[0]);
    record.set(21, splat.color[1]);
    record.set(22, splat.color[2]);
    record.set(23, splat.color[3]);
    let mut k: usize = 0;
    while k < coefficients
        invariant
            k <= coefficients == sh_count(sh_degree_available as int) == splat.sh@.len(),
            record@.len() == want.len() == record_size(sh_degree_available as int),
            24 + coefficients <= record@.len(),
            want == splat_record(*splat, sh_degree_available as int),
            forall|i: int| 0 <= i < 24 + k ==> #[trigger] record@[i] == want[i],
            forall|i: int| 24 + k <= i < record@.len() ==> #[trigger] record@[i] == 0,
        decreases coefficients - k,
    {
        record.set(24 + k, splat.sh[k]);
        k = k + 1;
    }
    assert(record@ =~= want);
    record
}

/// Whether the splat at `i` is the first of its cell.
pub open spec fn first_of_cell(cells: Seq<[i32; 3]>, i: int) -> bool {
    forall|j: int| 0 <= j < i ==> #[trigger] cells[j] != cells[i]
}

/// Among the first `n` splats, those that are the first of their cell, in order.
pub open spec fn cell_firsts(cells: Seq<[i32; 3]>, n: nat) -> Seq<int>
    decreases n,
{
    if n == 0 {
        Seq::empty()
    } else if first_of_cell(cells, n - 1) {
        cell_firsts(cells, (n - 1) as nat).push(n - 1)
    } else {
        cell_firsts(cells, (n - 1) as nat)
    }
}

/// Among the first `n` splats, those that are not the first of their cell, in order.
pub open spec fn cell_others(cells: Seq<[i32; 3]>, n: nat) -> Seq<int>
    decreases n,
{
    if n == 0 {
        Seq::empty()
    } else if first_of_cell(cells, n - 1) {
        cell_others(cells, (n - 1) as nat)
    } else {
        cell_others(cells, (n - 1) as nat).push(n - 1)
    }
}

/// The splats that a level of detail keeps of a chunk of `count`: all of them, or else one per
/// cell as far as `target` goes, then others until `target` is reached.
pub open spec fn lod_sample(count: int, target: int, cells: Seq<[i32; 3]>) -> Seq<int> {
    if target >= count {
        Seq::new(count as nat, |i: int| i)
    } else {
        (cell_firsts(cells, count as nat) + cell_others(cells, count as nat)).take(target)
    }
}

/// The firsts and the others are all there is, each in ascending order.
pub proof fn lemma_firsts_and_others(cells: Seq<[i32; 3]>, n: nat)
    ensures
        cell_firsts(cells, n).len() + cell_others(cells, n).len() == n,
        forall|i: int|
            0 <= i < cell_firsts(cells, n).len() ==> 0 <= #[trigger] cell_firsts(cells, n)[i] < n
                && first_of_cell(cells, cell_firsts(cells, n)[i]),
        forall|i: int|
            0 <= i < cell_others(cells, n).len() ==> 0 <= #[trigger] cell_others(cells, n)[i] < n
                && !first_of_cell(cells, cell_others(cells, n)[i]),
        forall|i: int, j: int|
            0 <= i < j < cell_firsts(cells, n).len() ==> #[trigger] cell_firsts(cells, n)[i]
                < #[trigger] cell_firsts(cells, n)[j],
        forall|i: int, j: int|
            0 <= i < j < cell_others(cells, n).len() ==> #[trigger] cell_others(cells, n)[i]
                < #[trigger] cell_others(cells, n)[j],
    decreases n,
{
    if n > 0 {
        lemma_firsts_and_others(cells, (n - 1) as nat);
    }
}

/// A level of detail keeps exactly as many splats as asked for, no splat twice, all of its chunk.
pub proof fn lod_sample_is_selection(count: int, target: int, cells: Seq<[i32; 3]>)
    requires
        0 <= count,
        0 <= target,
    ensures
        lod_sample(count, target, cells).len() == least(target, count),
        forall|i: int|
            0 <= i < lod_sample(count, target, cells).len() ==> 0 <= #[trigger] lod_sample(
                count,
                target,
                cells,
            )[i] < count,
        forall|i: int, j: int|
            0 <= i < j < lod_sample(count, target, cells).len() ==> #[trigger] lod_sample(
                count,
                target,
                cells,
            )[i] != #[trigger] lod_sample(count, target, cells)[j],
{
    if target < count {
        lemma_firsts_and_others(cells, count as nat);
    }
}

/// The payload indices of the splats that a level of detail keeps. `cells` gives the cell of each
/// splat of the chunk, and is read only where the level keeps fewer splats than there are.
pub fn select_lod_source_indices(
    entry: &ChunkEntry,
    target_count: usize,
    cells: &Vec<[i32; 3]>,
) -> (indices: Vec<u32>)
    requires
        entry.offset + entry.count <= u32::MAX + 1,
        target_count < entry.count ==> cells@.len() == entry.count,
    ensures
        indices@.len() == least(target_count as int, entry.count as int),
        forall|i: int|
            0 <= i < indices@.len() ==> #[trigger] indices@[i] == entry.offset + lod_sample(
                entry.count as int,
                target_count as int,
                cells@,
            )[i],
{
    let count: usize = entry.count as usize;
    let mut indices: Vec<u32> = Vec::new();
    if target_count >= count {
        let mut local: u32 = 0;
        while local < entry.count
            invariant
                local <= entry.count,
                entry.offset + entry.count <= u32::MAX + 1,
                indices@.len() == local,
                forall|i: int| 0 <= i < local ==> #[trigger] indices@[i] == entry.offset + i,
            decreases entry.count - local,
        {
            indices.push(entry.offset + local);
            local = local + 1;
        }
        return indices;
    }
    if target_count == 0 {
        return indices;
    }
    let ghost firsts = cell_firsts(cells@, count as nat);
    let ghost others = cell_others(cells@, count as nat);
    let ghost sample = lod_sample(count as int, target_count as int, cells@);
    proof {
        lemma_firsts_and_others(cells@, count as nat);
    }
    let mut occupied: HashSet<i128> = HashSet::new();
    let mut kept: Vec<bool> = Vec::new();
    let mut local: usize = 0;
    while local < count
        invariant
            local <= count == entry.count == cells@.len(),
            target_count < count,
            entry.offset + entry.count <= u32::MAX + 1,
            firsts == cell_firsts(cells@, count as nat),
            sample == (firsts + cell_others(cells@, count as nat)).take(target_count as int),
            sample == lod_sample(count as int, target_count as int, cells@),
            firsts.len() + cell_others(cells@, count as nat).len() == count,
            indices@.len() == cell_firsts(cells@, local as nat).len(),
            indices@.len() < target_count,
            forall|i: int|
                0 <= i < indices@.len() ==> #[trigger] indices@[i] == entry.offset + cell_firsts(
                    cells@,
                    local as nat,
                )[i],
            forall|c: i128| #[trigger]
                occupied@.contains(c) <==> exists|j: int|
                    0 <= j < local && #[trigger] cell_code(cells@[j]) == c,
            kept@.len() == local,
            forall|j: int| 0 <= j < local ==> #[trigger] kept@[j] == first_of_cell(cells@, j),
        decreases count - local,
    {
        let code: i128 = encode_cell(cells[local]);
        let ghost seen = occupied@;
        let fresh: bool = occupied.insert(code);
        proof {
            if fresh {
                assert forall|j: int| 0 <= j < local implies #[trigger] cells@[j]
                    != cells@[local as int] by {
                    lemma_cell_code(cells@[j], cells@[local as int]);
                    assert(cell_code(cells@[j]) != code);
                }
                assert(first_of_cell(cells@, local as int));
            } else {
                let j = choose|j: int| 0 <= j < local && #[trigger] cell_code(cells@[j]) == code;
                lemma_cell_code(cells@[j], cells@[local as int]);
                assert(cells@[j] == cells@[local as int]);
                assert(!first_of_cell(cells@, local as int));
            }
            assert forall|c: i128| #[trigger] occupied@.contains(c) <==> exists|j: int|
                0 <= j < local + 1 && #[trigger] cell_code(cells@[j]) == c by {
                if occupied@.contains(c) {
                    if c == code {
                        assert(cell_code(cells@[local as int]) == c);
                    } else {
                        assert(seen.contains(c));
                        let j = choose|j: int|
                            0 <= j < local && #[trigger] cell_code(cells@[j]) == c;
                        assert(0 <= j < local + 1 && cell_code(cells@[j]) == c);
                    }
                }
                if exists|j: int| 0 <= j < local + 1 && #[trigger] cell_code(cells@[j]) == c {
                    let j = choose|j: int|
                        0 <= j < local + 1 && #[trigger] cell_code(cells@[j]) == c;
                    if j < local {
                        assert(seen.contains(c));
                    }
                }
            }
        }
        kept.push(fresh);
        if fresh {
            indices.push(entry.offset + local as u32);
            if indices.len() == target_count {
                proof {
                    lemma_firsts_prefix(cells@, (local + 1) as nat, count as nat);
                    assert forall|i: int| 0 <= i < indices@.len() implies #[trigger] indices@[i]
                        == entry.offset + sample[i] by {
                        assert(cell_firsts(cells@, (local + 1) as nat)[i] == firsts[i]);
                        assert(sample[i] == firsts[i]);
                    }
                }
                return indices;
            }
        }
        local = local + 1;
    }
    local = 0;
    while local < count
        invariant
            local <= count == entry.count == cells@.len(),
            target_count < count,
            entry.offset + entry.count <= u32::MAX + 1,
            firsts == cell_firsts(cells@, count as nat),
            others == cell_others(cells@, count as nat),
            sample == (firsts + others).take(target_count as int),
            sample == lod_sample(count as int, target_count as int, cells@),
            firsts.len() + others.len() == count,
            indices@.len() == firsts.len() + cell_others(cells@, local as nat).len(),
            indices@.len() < target_count,
            forall|i: int|
                0 <= i < firsts.len() ==> #[trigger] indices@[i] == entry.offset + firsts[i],
            forall|i: int|
                firsts.len() <= i < indices@.len() ==> #[trigger] indices@[i] == entry.offset
                    + cell_others(cells@, local as nat)[i - firsts.len()],
            kept@.len() == count,
            forall|j: int| 0 <= j < count ==> #[trigger] kept@[j] == first_of_cell(cells@, j),
        decreases count - local,
    {
        if !kept[local] {
            indices.push(entry.offset + local as u32);
            if indices.len() == target_count {
                proof {
                    lemma_others_prefix(cells@, (local + 1) as nat, count as nat);
                    assert forall|i: int| 0 <= i < indices@.len() implies #[trigger] indices@[i]
                        == entry.offset + sample[i] by {
                        if i < firsts.len() {
                            assert(sample[i] == firsts[i]);
                        } else {
                            let k = i - firsts.len();
                            assert(cell_others(cells@, (local + 1) as nat)[k] == others[k]);
                            assert(sample[i] == others[k]);
                        }
                    }
                }
                return indices;
            }
        }
        local = local + 1;
    }
    assert(false);
    indices
}

/// The firsts among fewer splats are a prefix of the firsts among more.
proof fn lemma_firsts_prefix(cells: Seq<[i32; 3]>, m: nat, n: nat)
    requires
        m <= n,
    ensures
        cell_firsts(cells, m).len() <= cell_firsts(cells, n).len(),
        forall|i: int|
            0 <= i < cell_firsts(cells, m).len() ==> #[trigger] cell_firsts(cells, m)[i]
                == cell_firsts(cells, n)[i],
    decreases n,
{
    if m < n {
        lemma_firsts_prefix(cells, m, (n - 1) as nat);
    }
}

/// The others among fewer splats are a prefix of the others among more.
proof fn lemma_others_prefix(cells: Seq<[i32; 3]>, m: nat, n: nat)
    requires
        m <= n,
    ensures
        cell_others(cells, m).len() <= cell_others(cells, n).len(),
        forall|i: int|
            0 <= i < cell_others(cells, m).len() ==> #[trigger] cell_others(cells, m)[i]
                == cell_others(cells, n)[i],
    decreases n,
{
    if m < n {
        lemma_others_prefix(cells, m, (n - 1) as nat);
    }
}

} // verus!
