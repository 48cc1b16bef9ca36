use godot_gsplat::chunking::{
    effective_chunk_size, effective_splat_stride, gather_active, grid_origin, partition_payload,
    select_chunks, select_chunks_coverage, table_bounds, ChunkEntry, ChunkTable,
    PartitionedPayload, POINT_STRIDE_FLOATS,
};
use godot_gsplat::floats::F32;

const POS_X: usize = 0;
const SCALE_X: usize = 7;
const COLOR_A: usize = 17;

fn bits(value: f32) -> F32 {
    F32::from_bits(value.to_bits())
}

fn number(value: F32) -> f32 {
    f32::from_bits(value.to_bits())
}

fn numbers(values: &[F32]) -> Vec<f32> {
    values.iter().map(|&value| number(value)).collect()
}

fn splat_importance(s: &[f32]) -> f32 {
    let alpha = s[COLOR_A];
    let sx = s[SCALE_X].abs();
    let sy = s[SCALE_X + 1].abs();
    let sz = s[SCALE_X + 2].abs();
    let footprint = (sx * sy * sz).max(0.0).cbrt();
    alpha * footprint
}

fn aabb_distance(p: [f32; 3], min: [F32; 3], max: [F32; 3]) -> f32 {
    let mut sum = 0.0_f32;
    for k in 0..3 {
        let d = (number(min[k]) - p[k]).max(0.0).max(p[k] - number(max[k]));
        sum += d * d;
    }
    sum.sqrt()
}

fn partition(payload: &[f32], chunk_size: f32, stride: usize) -> PartitionedPayload {
    let values: Vec<F32> = payload.iter().map(|&value| bits(value)).collect();
    let width = effective_splat_stride(stride);
    let edge = number(effective_chunk_size(bits(chunk_size)));
    let origin = grid_origin(&values, stride);
    let mut cells = Vec::new();
    let mut importance = Vec::new();
    for s in payload.chunks_exact(width) {
        cells.push([
            ((s[POS_X] - number(origin[0])) / edge).floor() as i32,
            ((s[POS_X + 1] - number(origin[1])) / edge).floor() as i32,
            ((s[POS_X + 2] - number(origin[2])) / edge).floor() as i32,
        ]);
        importance.push(bits(splat_importance(s)));
    }
    let mut part = partition_payload(&values, bits(chunk_size), stride, &cells, &importance);
    for (entry, &radius) in part.table.entries.iter_mut().zip(part.max_radii.iter()) {
        let grow = number(radius) * 3.0;
        for k in 0..3 {
            entry.aabb_min[k] = bits(number(entry.aabb_min[k]) - grow);
            entry.aabb_max[k] = bits(number(entry.aabb_max[k]) + grow);
        }
    }
    part
}

fn select(table: &ChunkTable, cam: [f32; 3], budget: u32) -> Vec<(u32, u32)> {
    let distances: Vec<F32> = table
        .entries
        .iter()
        .map(|e| bits(aabb_distance(cam, e.aabb_min, e.aabb_max)))
        .collect();
    select_chunks(table, &distances, budget)
}

fn make_splat(pos: [f32; 3], scale: f32, alpha: f32) -> [f32; POINT_STRIDE_FLOATS] {
    let mut s = [0.0_f32; POINT_STRIDE_FLOATS];
    s[POS_X] = pos[0];
    s[POS_X + 1] = pos[1];
    s[POS_X + 2] = pos[2];
    s[6] = 1.0; // quat w
    s[SCALE_X] = scale;
    s[SCALE_X + 1] = scale;
    s[SCALE_X + 2] = scale;
    s[COLOR_A] = alpha;
    s
}

fn grid_payload() -> Vec<f32> {
    // 4x4 lattice spanning several 2.0-unit cells.
    let mut p = Vec::new();
    for x in 0..4 {
        for y in 0..4 {
            let s = make_splat([x as f32 * 2.5, y as f32 * 2.5, 0.0], 0.1, 0.5);
            p.extend_from_slice(&s);
        }
    }
    p
}

fn entry(offset: u32, count: u32) -> ChunkEntry {
    ChunkEntry {
        grid: [0, 0, 0],
        aabb_min: [bits(0.0); 3],
        aabb_max: [bits(1.0); 3],
        offset,
        count,
    }
}

fn table_of(counts: &[u32]) -> ChunkTable {
    let mut entries = Vec::new();
    let mut offset = 0;
    for &count in counts {
        entries.push(entry(offset, count));
        offset += count;
    }
    ChunkTable {
        chunk_size: bits(2.0),
        grid_origin: [bits(0.0); 3],
        entries,
        stride: POINT_STRIDE_FLOATS,
    }
}

#[test]
fn empty_payload_yields_empty_table() {
    let part = partition(&[], 2.0, POINT_STRIDE_FLOATS);
    assert!(part.payload.is_empty());
    assert!(part.table.entries.is_empty());
}

#[test]
fn ranges_are_contiguous_and_cover_all() {
    let payload = grid_payload();
    let n = payload.len() / POINT_STRIDE_FLOATS;
    let part = partition(&payload, 2.0, POINT_STRIDE_FLOATS);
    assert!(part.table.entries.len() > 1, "expected multiple chunks");
    let mut expect = 0u32;
    let mut total = 0u32;
    for e in &part.table.entries {
        assert_eq!(e.offset, expect);
        expect += e.count;
        total += e.count;
    }
    assert_eq!(total as usize, n);
    assert_eq!(part.payload.len(), payload.len());
}

#[test]
fn output_is_a_permutation_of_input() {
    let payload = grid_payload();
    let part = partition(&payload, 2.0, POINT_STRIDE_FLOATS);
    let key = |chunk: &[f32]| {
        (
            chunk[POS_X].to_bits(),
            chunk[POS_X + 1].to_bits(),
            chunk[POS_X + 2].to_bits(),
        )
    };
    let out = numbers(&part.payload);
    let mut a: Vec<_> = payload.chunks(POINT_STRIDE_FLOATS).map(key).collect();
    let mut b: Vec<_> = out.chunks(POINT_STRIDE_FLOATS).map(key).collect();
    a.sort_unstable();
    b.sort_unstable();
    assert_eq!(a, b);
}

#[test]
fn importance_is_non_increasing_within_each_chunk() {
    let mut payload = Vec::new();
    for (i, (alpha, scale)) in [(0.2, 0.05), (0.9, 0.2), (0.5, 0.1), (0.5, 0.3)]
        .iter()
        .enumerate()
    {
        payload.extend_from_slice(&make_splat([0.1 * i as f32, 0.0, 0.0], *scale, *alpha));
    }
    let part = partition(&payload, 100.0, POINT_STRIDE_FLOATS); // one big cell
    assert_eq!(part.table.entries.len(), 1);
    let count = part.table.entries[0].count as usize;
    let out = numbers(&part.payload);
    let mut prev = f32::INFINITY;
    for i in 0..count {
        let s = &out[i * POINT_STRIDE_FLOATS..(i + 1) * POINT_STRIDE_FLOATS];
        let imp = splat_importance(s);
        assert!(imp <= prev + 1.0e-6, "importance rose: {imp} > {prev}");
        prev = imp;
    }
}

#[test]
fn centers_lie_within_grown_chunk_aabb() {
    let payload = grid_payload();
    let part = partition(&payload, 2.0, POINT_STRIDE_FLOATS);
    let out = numbers(&part.payload);
    for e in &part.table.entries {
        for i in e.offset..e.offset + e.count {
            let s = &out[i as usize * POINT_STRIDE_FLOATS..(i as usize + 1) * POINT_STRIDE_FLOATS];
            for k in 0..3 {
                assert!(s[POS_X + k] >= number(e.aabb_min[k]) - 1.0e-4);
                assert!(s[POS_X + k] <= number(e.aabb_max[k]) + 1.0e-4);
            }
        }
    }
}

#[test]
fn select_fills_budget_and_is_offset_sorted() {
    let payload = grid_payload();
    let part = partition(&payload, 2.0, POINT_STRIDE_FLOATS);
    let table = &part.table;
    let total: u32 = table.entries.iter().map(|e| e.count).sum();

    // Ample budget -> every chunk in full (no detail loss).
    let all = select(table, [0.0, 0.0, 0.0], u32::MAX);
    assert_eq!(all.len(), table.entries.len());
    let all_picked: u32 = all.iter().map(|&(_, lod)| lod).sum();
    assert_eq!(all_picked, total);

    // Reduced budget -> filled exactly, offset-sorted.
    let budget = (total / 3).max(1);
    let sel = select(table, [0.0, 0.0, 0.0], budget);
    assert!(!sel.is_empty());
    let picked: u32 = sel.iter().map(|&(_, lod)| lod).sum();
    assert_eq!(picked, budget.min(total));
    let mut sorted = sel.clone();
    sorted.sort_unstable_by_key(|&(idx, _)| idx);
    assert_eq!(sorted, sel, "selection must be offset-sorted");
}

#[test]
fn gather_concatenates_selected_ranges() {
    let payload = grid_payload();
    let part = partition(&payload, 2.0, POINT_STRIDE_FLOATS);
    let table = &part.table;
    let active: Vec<(u32, u32)> = vec![(0, 1), (2, 1)];
    let gathered = gather_active(&part.payload, table, &active);
    let expect: usize = active
        .iter()
        .map(|&(i, lod)| lod.min(table.entries[i as usize].count) as usize * POINT_STRIDE_FLOATS)
        .sum();
    assert_eq!(gathered.len(), expect);
    let e0 = &table.entries[0];
    let start = e0.offset as usize * POINT_STRIDE_FLOATS;
    assert_eq!(
        &gathered[0..POINT_STRIDE_FLOATS],
        &part.payload[start..start + POINT_STRIDE_FLOATS]
    );
}

#[test]
fn boundary_chunk_is_partially_taken() {
    // One chunk of 10 splats: a budget of 3 takes the top-3 importance prefix;
    // an ample budget takes all 10.
    let mut payload = Vec::new();
    for i in 0..10 {
        payload.extend_from_slice(&make_splat([0.01 * i as f32, 0.0, 0.0], 0.1, 0.5));
    }
    let part = partition(&payload, 100.0, POINT_STRIDE_FLOATS);
    assert_eq!(part.table.entries.len(), 1);
    assert_eq!(
        select(&part.table, [0.0, 0.0, 0.0], 3),
        vec![(0u32, 3u32)]
    );
    assert_eq!(
        select(&part.table, [0.0, 0.0, 0.0], u32::MAX),
        vec![(0u32, 10u32)]
    );
}

#[test]
fn chunks_are_sorted_by_grid_coordinates() {
    let mut payload = Vec::new();
    for pos in [[5.0, 0.0, 0.0], [0.0, 5.0, 0.0], [0.0, 0.0, 0.0]] {
        payload.extend_from_slice(&make_splat(pos, 0.1, 0.5));
    }
    let part = partition(&payload, 2.0, POINT_STRIDE_FLOATS);
    let grids: Vec<[i32; 3]> = part.table.entries.iter().map(|e| e.grid).collect();
    assert_eq!(grids, vec![[0, 0, 0], [0, 2, 0], [2, 0, 0]]);
}

#[test]
fn equally_important_splats_keep_their_order() {
    let mut payload = Vec::new();
    for i in 0..4 {
        payload.extend_from_slice(&make_splat([0.1 * i as f32, 0.0, 0.0], 0.1, 0.5));
    }
    let part = partition(&payload, 100.0, POINT_STRIDE_FLOATS);
    assert_eq!(numbers(&part.payload), payload);
}

#[test]
fn short_strides_and_edges_are_raised() {
    assert_eq!(effective_splat_stride(3), POINT_STRIDE_FLOATS);
    assert_eq!(effective_splat_stride(63), 63);
    assert_eq!(number(effective_chunk_size(bits(0.0))), 1.0e-4);
    assert_eq!(number(effective_chunk_size(bits(f32::NAN))), 1.0e-4);
    assert_eq!(number(effective_chunk_size(bits(2.0))), 2.0);
}

#[test]
fn the_nearest_chunks_come_first() {
    let table = table_of(&[4, 4, 4]);
    let distances = vec![bits(9.0), bits(1.0), bits(5.0)];
    assert_eq!(select_chunks(&table, &distances, 6), vec![(1, 4), (2, 2)]);
    assert_eq!(select_chunks(&table, &distances, 0), vec![]);
    let unknown = vec![bits(f32::NAN), bits(1.0), bits(5.0)];
    assert_eq!(select_chunks(&table, &unknown, 8), vec![(1, 4), (2, 4)]);
}

#[test]
fn coverage_spreads_the_budget() {
    let table = table_of(&[10, 30, 60]);
    assert_eq!(
        select_chunks_coverage(&table, 50),
        vec![(0, 5), (1, 15), (2, 30)]
    );
    assert_eq!(
        select_chunks_coverage(&table, 1000),
        vec![(0, 10), (1, 30), (2, 60)]
    );
    assert_eq!(select_chunks_coverage(&table, 4), vec![(1, 1), (2, 2)]);
    assert_eq!(select_chunks_coverage(&table, 0), vec![]);
}

#[test]
fn gathering_passes_over_what_is_missing() {
    let table = table_of(&[1, 2]);
    let payload: Vec<F32> = (0..2 * POINT_STRIDE_FLOATS).map(|i| bits(i as f32)).collect();
    // Chunk 1 reaches past the payload, chunk 7 does not exist, and a chunk has no more than it has.
    let gathered = gather_active(&payload, &table, &[(0, 5), (1, 2), (7, 1)]);
    assert_eq!(gathered, payload[..POINT_STRIDE_FLOATS].to_vec());
    let one = gather_active(&payload, &table, &[(1, 1)]);
    assert_eq!(one, payload[POINT_STRIDE_FLOATS..].to_vec());
}

#[test]
fn bounds_of_a_table_span_its_chunks() {
    let mut table = table_of(&[1, 1]);
    table.entries[1].aabb_min = [bits(-4.0), bits(0.5), bits(0.5)];
    table.entries[1].aabb_max = [bits(0.5), bits(7.0), bits(0.5)];
    let (min, max) = table_bounds(&table).unwrap();
    assert_eq!(numbers(&min), vec![-4.0, 0.0, 0.0]);
    assert_eq!(numbers(&max), vec![1.0, 7.0, 1.0]);
    assert!(table_bounds(&table_of(&[])).is_none());
}
