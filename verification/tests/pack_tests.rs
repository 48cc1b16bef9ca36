use godot_gsplat::chunking::{ChunkEntry, ChunkTable, POINT_STRIDE_FLOATS};
use godot_gsplat::floats::F32;
use godot_gsplat::gsplat_pack::layout::{lod_counts_for_chunk, plan_pack};
use godot_gsplat::gsplat_pack::ranges::{chunk_center_bounds, NarrowRanges};
use godot_gsplat::gsplat_pack::reader::{
    read_array, read_f32_at, read_header, read_i32_at, read_pack_index, read_tables, read_u32_at,
    read_u64_at,
};
use godot_gsplat::gsplat_pack::records::{
    encode_record, select_lod_source_indices, write_i16_bytes, write_u16_bytes, QuantizedSplat,
};
use godot_gsplat::gsplat_pack::selection::{ChunkView, ViewLimits};
use godot_gsplat::gsplat_pack::writer::{write_pack, PackFile, PackSplats};
use godot_gsplat::gsplat_pack::{
    max_sh_degree_for_stride, packed_record_bytes, sh_floats, GsplatPackIndex, PackError,
    QuantizationRanges,
};

fn bits(value: f32) -> F32 {
    F32::from_bits(value.to_bits())
}

fn number(value: F32) -> f32 {
    f32::from_bits(value.to_bits())
}

fn triple(values: [f32; 3]) -> [F32; 3] {
    [bits(values[0]), bits(values[1]), bits(values[2])]
}

fn is_narrow(low: F32, high: F32) -> bool {
    (number(high) - number(low)).abs() <= f32::EPSILON
}

fn quantize(value: f32, min: F32, max: F32, steps: f32) -> f32 {
    let (min, max) = (number(min), number(max));
    let t = ((value - min) / (max - min).max(f32::EPSILON)).clamp(0.0, 1.0);
    t * steps + 0.5
}

fn quantized(splat: &[f32], ranges: &QuantizationRanges, coefficients: usize) -> QuantizedSplat {
    let mut position = [0_u16; 3];
    let mut scale = [0_u16; 3];
    for k in 0..3 {
        let (low, high) = (ranges.position_min[k], ranges.position_max[k]);
        position[k] = quantize(splat[k], low, high, 65535.0) as u16;
        let (low, high) = (ranges.scale_min[k], ranges.scale_max[k]);
        scale[k] = quantize(splat[7 + k], low, high, 65535.0) as u16;
    }
    let mut rotation = [0_i16; 4];
    let mut color = [0_u8; 4];
    for k in 0..4 {
        rotation[k] = (splat[3 + k].clamp(-1.0, 1.0) * 32767.0).round() as i16;
        color[k] = quantize(splat[14 + k], bits(0.0), bits(1.0), 255.0) as u8;
    }
    let sh = splat[18..18 + coefficients]
        .iter()
        .map(|&value| quantize(value, ranges.sh_min, ranges.sh_max, 255.0) as u8)
        .collect();
    QuantizedSplat {
        position,
        scale,
        rotation,
        color,
        sh,
    }
}

fn cells_of(payload: &[F32], stride: usize, entry: &ChunkEntry, count: u32) -> Vec<[i32; 3]> {
    let dim = (count as f32).cbrt().ceil().max(1.0) as i32;
    let (low, high) = chunk_center_bounds(payload, stride, entry);
    (0..entry.count)
        .map(|local| {
            let start = (entry.offset + local) as usize * stride;
            let mut cell = [0_i32; 3];
            for k in 0..3 {
                let extent = (number(high[k]) - number(low[k])).max(f32::EPSILON);
                cell[k] = (((number(payload[start + k]) - number(low[k])) / extent) * dim as f32)
                    .floor()
                    .clamp(0.0, (dim - 1) as f32) as i32;
            }
            cell
        })
        .collect()
}

fn pack_of(
    payload: &[f32],
    table: &ChunkTable,
    sh_degree: i32,
    page_splats: u32,
) -> Result<PackFile, PackError> {
    let values: Vec<F32> = payload.iter().map(|&value| bits(value)).collect();
    let plan = plan_pack(values.len(), table, sh_degree, page_splats)?;
    let coefficients = sh_floats(plan.sh_degree_available);
    let raw = QuantizationRanges::from_payload(&values, plan.stride, plan.sh_degree_available);
    let mut narrow = NarrowRanges {
        position: [false; 3],
        scale: [false; 3],
        sh: is_narrow(raw.sh_min, raw.sh_max),
    };
    for k in 0..3 {
        narrow.position[k] = is_narrow(raw.position_min[k], raw.position_max[k]);
        narrow.scale[k] = is_narrow(raw.scale_min[k], raw.scale_max[k]);
    }
    let ranges = raw.settle(&narrow, plan.sh_degree_available);
    let records = payload
        .chunks_exact(plan.stride)
        .map(|splat| quantized(splat, &ranges, coefficients))
        .collect();
    let lod_cells = plan
        .lods
        .iter()
        .map(|lod| {
            let entry = &table.entries[lod.chunk_index as usize];
            cells_of(&values, plan.stride, entry, lod.count)
        })
        .collect();
    let splats = PackSplats {
        narrow,
        records,
        lod_cells,
    };
    let path = "user://test.gsplatpack".to_string();
    write_pack(path, &values, table, sh_degree, page_splats, splats)
}

fn two_chunks() -> (ChunkTable, Vec<f32>) {
    let stride = POINT_STRIDE_FLOATS;
    let table = ChunkTable {
        chunk_size: bits(2.0),
        grid_origin: triple([0.0, 0.0, 0.0]),
        entries: vec![
            ChunkEntry {
                grid: [0, 0, 0],
                aabb_min: triple([0.0, 0.0, 0.0]),
                aabb_max: triple([1.0, 1.0, 1.0]),
                offset: 0,
                count: 3,
            },
            ChunkEntry {
                grid: [1, 0, 0],
                aabb_min: triple([2.0, 0.0, 0.0]),
                aabb_max: triple([3.0, 1.0, 1.0]),
                offset: 3,
                count: 2,
            },
        ],
        stride,
    };
    let mut payload = Vec::new();
    for point in 0..5 {
        for field in 0..stride {
            payload.push((point * 100 + field) as f32);
        }
    }
    (table, payload)
}

fn normalize_or(v: [f32; 3], fallback: [f32; 3]) -> [f32; 3] {
    let len_sq = v[0] * v[0] + v[1] * v[1] + v[2] * v[2];
    if len_sq <= 1.0e-12 {
        return fallback;
    }
    let inv_len = len_sq.sqrt().recip();
    [v[0] * inv_len, v[1] * inv_len, v[2] * inv_len]
}

fn views_of(pack: &GsplatPackIndex, cam: [f32; 3], forward: [f32; 3]) -> Vec<ChunkView> {
    pack.chunks
        .iter()
        .map(|chunk| {
            let mut sum = 0.0_f32;
            let mut to_center = [0.0_f32; 3];
            for k in 0..3 {
                let (low, high) = (number(chunk.entry.aabb_min[k]), number(chunk.entry.aabb_max[k]));
                let d = (low - cam[k]).max(0.0).max(cam[k] - high);
                sum += d * d;
                to_center[k] = (low + high) * 0.5 - cam[k];
            }
            let distance = sum.sqrt();
            let dir = normalize_or(to_center, forward);
            let dot = forward[0] * dir[0] + forward[1] * dir[1] + forward[2] * dir[2];
            let center_dot = dot.clamp(-1.0, 1.0);
            let distance_score = 1.0 / (1.0 + distance.max(0.0));
            let angle_score = (center_dot + 1.0) * 0.5;
            let count_score = (chunk.entry.count.max(1) as f32).ln() * 0.01;
            ChunkView {
                distance: bits(distance),
                center_dot: bits(center_dot),
                priority: bits(distance_score * 2.0 + angle_score * 2.0 + count_score),
            }
        })
        .collect()
}

fn limits_of(fov_degrees: f32, full_distance: f32) -> ViewLimits {
    let fov = fov_degrees.clamp(1.0, 360.0);
    ViewLimits {
        fov_degrees: bits(fov_degrees),
        cos_half_fov: bits((fov.to_radians() * 0.5).cos()),
        full_distance: bits(full_distance),
    }
}

fn two_rows() -> PackFile {
    let stride = POINT_STRIDE_FLOATS;
    let table = ChunkTable {
        chunk_size: bits(2.0),
        grid_origin: triple([0.0, 0.0, 0.0]),
        entries: vec![
            ChunkEntry {
                grid: [0, 0, 0],
                aabb_min: triple([0.0, -0.5, -0.5]),
                aabb_max: triple([1.0, 0.5, 0.5]),
                offset: 0,
                count: 8,
            },
            ChunkEntry {
                grid: [1, 0, 0],
                aabb_min: triple([5.0, -0.5, -0.5]),
                aabb_max: triple([6.0, 0.5, 0.5]),
                offset: 8,
                count: 8,
            },
        ],
        stride,
    };
    let mut payload = Vec::new();
    for point in 0..16 {
        let mut splat = [0.0_f32; POINT_STRIDE_FLOATS];
        let local = (point % 8) as f32;
        splat[0] = if point < 8 {
            local * 0.1
        } else {
            5.0 + local * 0.1
        };
        splat[7] = 0.01;
        splat[8] = 0.01;
        splat[9] = 0.01;
        splat[17] = 1.0;
        payload.extend_from_slice(&splat);
    }
    pack_of(&payload, &table, 0, 64).expect("write pack")
}

#[test]
fn pack_round_trip_preserves_index_and_page_payload() {
    let (table, payload) = two_chunks();
    let file = pack_of(&payload, &table, 3, 2).expect("write pack");
    let pack = &file.index;
    assert_eq!(pack.point_count, 5);
    assert_eq!(pack.record_bytes, packed_record_bytes(0));
    assert_eq!(pack.chunks.len(), 2);
    assert_eq!(pack.lods.len(), 5);
    assert_eq!(pack.pages.len(), 6);
    assert_eq!(pack.chunks[0].page_count, 4);
    assert_eq!(pack.chunks[1].page_count, 2);
    assert_eq!(pack.best_lod_for_request(0, 2).unwrap().count, 2);
    assert_eq!(pack.best_lod_for_request(1, 1).unwrap().count, 1);

    let first_page = pack.read_page_bytes(&file.image, 0).expect("read page");
    assert_eq!(first_page.len(), 2 * pack.record_bytes);

    let second_chunk_page = pack.read_page_bytes(&file.image, 4).expect("read page");
    assert_eq!(second_chunk_page.len(), 2 * pack.record_bytes);
}

#[test]
fn view_priority_lod_selection_upgrades_high_priority_nodes_within_budget() {
    let file = two_rows();
    let views = views_of(&file.index, [0.0, 0.0, 0.0], [1.0, 0.0, 0.0]);
    let limits = limits_of(120.0, 10.0);
    let selected = file.index.select_lods_view_priority(&views, &limits, 10);

    assert_eq!(selected, vec![(0, 8), (1, 2)]);
    assert!(selected.iter().map(|&(_, count)| count).sum::<u32>() <= 10);
}

#[test]
fn view_priority_leaves_out_what_is_behind_or_far() {
    let file = two_rows();
    let behind = views_of(&file.index, [3.0, 0.0, 0.0], [1.0, 0.0, 0.0]);
    let limits = limits_of(120.0, 10.0);
    let selected = file.index.select_lods_view_priority(&behind, &limits, 100);
    assert_eq!(selected, vec![(1, 8)]);
    // A full circle leaves no direction out.
    let around = limits_of(360.0, 10.0);
    let selected = file.index.select_lods_view_priority(&behind, &around, 100);
    assert_eq!(selected, vec![(0, 8), (1, 8)]);
    let near = limits_of(360.0, 3.0);
    let far = views_of(&file.index, [0.0, 0.0, 0.0], [1.0, 0.0, 0.0]);
    let selected = file.index.select_lods_view_priority(&far, &near, 100);
    assert_eq!(selected, vec![(0, 8)]);
    let nowhere = limits_of(120.0, 0.0);
    assert!(file.index.select_lods_view_priority(&far, &nowhere, 100).is_empty());
    assert!(file.index.select_lods_view_priority(&far, &limits, 0).is_empty());
}

#[test]
fn record_bytes_are_rounded_up() {
    assert_eq!(packed_record_bytes(0), 24);
    assert_eq!(packed_record_bytes(1), 36);
    assert_eq!(packed_record_bytes(2), 48);
    assert_eq!(packed_record_bytes(3), 72);
}

#[test]
fn degrees_fit_their_stride() {
    assert_eq!(sh_floats(-1), 0);
    assert_eq!(sh_floats(1), 9);
    assert_eq!(sh_floats(2), 24);
    assert_eq!(sh_floats(9), 45);
    assert_eq!(max_sh_degree_for_stride(18), 0);
    assert_eq!(max_sh_degree_for_stride(27), 1);
    assert_eq!(max_sh_degree_for_stride(42), 2);
    assert_eq!(max_sh_degree_for_stride(62), 2);
    assert_eq!(max_sh_degree_for_stride(63), 3);
}

#[test]
fn levels_of_detail_halve() {
    assert_eq!(lod_counts_for_chunk(9, 4), vec![9, 5, 3, 2]);
    assert_eq!(lod_counts_for_chunk(3, 4), vec![3, 2, 1]);
    assert_eq!(lod_counts_for_chunk(1, 4), vec![1]);
    assert_eq!(lod_counts_for_chunk(8, 0), vec![8]);
    assert!(lod_counts_for_chunk(0, 4).is_empty());
}

#[test]
fn read_index_is_the_written_one() {
    let (table, payload) = two_chunks();
    let file = pack_of(&payload, &table, 3, 2).expect("write pack");
    let again = read_pack_index("other".to_string(), &file.image).expect("read");
    assert_eq!(again.path, "other");
    assert_eq!(again.chunks, file.index.chunks);
    assert_eq!(again.lods, file.index.lods);
    assert_eq!(again.pages, file.index.pages);
    assert_eq!(again.stride, POINT_STRIDE_FLOATS);
    assert_eq!(again.sh_degree_available, 0);
    assert_eq!(number(again.chunk_size), 2.0);
    assert_eq!(number(again.position_min[0]), 0.0);
    assert_eq!(number(again.position_max[0]), 400.0);
    assert_eq!(number(again.sh_min), -1.0);
    assert_eq!(number(again.sh_max), 1.0);
    assert_eq!(again.lod_levels, 4);
    let rebuilt = again.chunk_table();
    assert_eq!(rebuilt.entries, table.entries);
}

#[test]
fn tables_lie_where_the_header_says() {
    let (table, payload) = two_chunks();
    let file = pack_of(&payload, &table, 3, 2).expect("write pack");
    let header = read_header(&file.image).expect("header");
    assert_eq!(header.chunk_table_offset, 160);
    assert_eq!(header.node_lod_table_offset, 160 + 2 * 64);
    assert_eq!(header.page_table_offset, 160 + 2 * 64 + 5 * 32);
    assert_eq!(header.payload_offset, 160 + 2 * 64 + 5 * 32 + 6 * 32);
    assert_eq!(file.image.len(), 160 + 2 * 64 + 5 * 32 + 6 * 32 + (3 + 2 + 1 + 2 + 1) * 24);
    assert_eq!(file.index.page_span(0), Ok((header.payload_offset, 48)));
    assert_eq!(file.index.page_span(9), Err(PackError::PageOutOfRange(9)));
}

#[test]
fn pages_hold_the_records_of_their_level() {
    let (table, payload) = two_chunks();
    let file = pack_of(&payload, &table, 0, 2).expect("write pack");
    // Page 0 holds the first two splats, page 1 the third, page 4 the two of the second chunk.
    let first = file.index.read_page_bytes(&file.image, 0).expect("page");
    let third = file.index.read_page_bytes(&file.image, 1).expect("page");
    let other = file.index.read_page_bytes(&file.image, 4).expect("page");
    assert_eq!(&first[0..2], &[0, 0]);
    assert_eq!(&first[24..26], &16384_u16.to_le_bytes());
    assert_eq!(&third[0..2], &32768_u16.to_le_bytes());
    assert_eq!(&other[0..2], &49151_u16.to_le_bytes());
    assert_eq!(&other[24..26], &65535_u16.to_le_bytes());
}

#[test]
fn records_are_laid_out_in_order() {
    let splat = QuantizedSplat {
        position: [0x0201, 0x0403, 0x0605],
        scale: [0x0807, 0x0a09, 0x0c0b],
        rotation: [-1, 0, 1, 0x1234],
        color: [9, 8, 7, 6],
        sh: vec![5; 9],
    };
    let record = encode_record(&splat, 1);
    assert_eq!(record.len(), 36);
    assert_eq!(&record[..12], &[1, 2, 3, 4, 5, 6, 7, 8, 9, 10, 11, 12]);
    assert_eq!(&record[12..20], &[0xff, 0xff, 0, 0, 1, 0, 0x34, 0x12]);
    assert_eq!(&record[20..24], &[9, 8, 7, 6]);
    assert_eq!(&record[24..36], &[5, 5, 5, 5, 5, 5, 5, 5, 5, 0, 0, 0]);
    let mut out = vec![0_u8; 4];
    write_u16_bytes(&mut out, 0, 0xabcd);
    write_i16_bytes(&mut out, 2, -2);
    assert_eq!(out, vec![0xcd, 0xab, 0xfe, 0xff]);
}

#[test]
fn a_level_takes_one_splat_per_cell_first() {
    let entry = ChunkEntry {
        grid: [0, 0, 0],
        aabb_min: triple([0.0; 3]),
        aabb_max: triple([1.0; 3]),
        offset: 10,
        count: 5,
    };
    let cells = vec![[0, 0, 0], [0, 0, 0], [1, 0, 0], [1, 0, 0], [0, 0, 1]];
    assert_eq!(select_lod_source_indices(&entry, 3, &cells), vec![10, 12, 14]);
    assert_eq!(select_lod_source_indices(&entry, 4, &cells), vec![10, 12, 14, 11]);
    assert_eq!(
        select_lod_source_indices(&entry, 9, &vec![]),
        vec![10, 11, 12, 13, 14]
    );
    assert!(select_lod_source_indices(&entry, 0, &cells).is_empty());
}

#[test]
fn packs_that_cannot_be_written_are_refused() {
    let (table, payload) = two_chunks();
    let short = &payload[..payload.len() - 1];
    assert_eq!(
        pack_of(short, &table, 0, 2).unwrap_err(),
        PackError::PayloadMisaligned
    );
    let mut huge = table.clone();
    huge.entries[0].count = u32::MAX;
    assert_eq!(
        plan_pack(payload.len(), &huge, 0, u32::MAX).unwrap_err(),
        PackError::PageBytesOverflow
    );
    let wide = ChunkTable {
        stride: 1 << 33,
        entries: vec![],
        ..table.clone()
    };
    assert_eq!(plan_pack(0, &wide, 0, 2).unwrap_err(), PackError::TooLarge);
    let mut far = table.clone();
    far.entries[1].offset = 4;
    let values: Vec<F32> = payload.iter().map(|&value| bits(value)).collect();
    let splats = PackSplats {
        narrow: NarrowRanges {
            position: [false; 3],
            scale: [false; 3],
            sh: false,
        },
        records: payload
            .chunks_exact(POINT_STRIDE_FLOATS)
            .map(|_| QuantizedSplat {
                position: [0; 3],
                scale: [0; 3],
                rotation: [0; 4],
                color: [0; 4],
                sh: vec![],
            })
            .collect(),
        lod_cells: vec![
            vec![[0; 3]; 3],
            vec![[0; 3]; 3],
            vec![[0; 3]; 3],
            vec![[0; 3]; 2],
            vec![[0; 3]; 2],
        ],
    };
    assert_eq!(
        write_pack("p".to_string(), &values, &far, 0, 2, splats).unwrap_err(),
        PackError::SourceIndexOutOfRange
    );
}

#[test]
fn broken_files_are_refused() {
    let (table, payload) = two_chunks();
    let file = pack_of(&payload, &table, 0, 2).expect("write pack");
    let read = |image: &[u8]| read_pack_index("p".to_string(), image).unwrap_err();
    assert_eq!(read(&file.image[..100]), PackError::HeaderTruncated);
    let mut other = file.image.clone();
    other[0] = b'X';
    assert_eq!(read(&other), PackError::InvalidMagic);
    let mut other = file.image.clone();
    other[8] = 2;
    assert_eq!(read(&other), PackError::UnsupportedVersion(2));
    let mut other = file.image.clone();
    other[96] = 7;
    assert_eq!(read(&other), PackError::UnsupportedEncoding(7));
    assert_eq!(read(&file.image[..200]), PackError::ChunkTableTruncated);
    assert_eq!(read(&file.image[..300]), PackError::LodTableTruncated);
    assert_eq!(read(&file.image[..460]), PackError::PageTableTruncated);
    assert_eq!(
        file.index.read_page_bytes(&file.image[..650], 0).unwrap_err(),
        PackError::PageTruncated(0)
    );
    assert_eq!(
        file.index.read_page_bytes(&file.image, 6).unwrap_err(),
        PackError::PageOutOfRange(6)
    );
}

#[test]
fn errors_say_what_is_wrong() {
    assert_eq!(
        PackError::PayloadMisaligned.message(),
        "Pack payload length is not aligned to the chunk stride."
    );
    assert_eq!(
        PackError::UnsupportedVersion(17).message(),
        "Unsupported gsplat pack version 17."
    );
    assert_eq!(
        PackError::PageOutOfRange(4).message(),
        "Pack page 4 is out of range."
    );
    assert_eq!(PackError::RecordTruncated.message(), "Pack record is truncated.");
    assert_eq!(PackError::InvalidMagic.message(), "Invalid gsplat pack magic.");
}

#[test]
fn fields_are_read_in_little_endian() {
    let bytes = [1, 2, 3, 4, 5, 6, 7, 8, 0xff];
    assert_eq!(read_u32_at(&bytes, 0), Ok(0x0403_0201));
    assert_eq!(read_i32_at(&bytes, 5), Ok(i32::from_le_bytes([6, 7, 8, 0xff])));
    assert_eq!(read_u64_at(&bytes, 1), Ok(0xff08_0706_0504_0302));
    assert_eq!(read_f32_at(&[0, 0, 0x80, 0x3f], 0).map(number), Ok(1.0));
    assert_eq!(read_u32_at(&bytes, 6), Err(PackError::RecordTruncated));
    assert_eq!(read_array::<2>(&bytes, 7), Ok(&bytes[7..9]));
    assert_eq!(read_array::<2>(&bytes, 8), Err(PackError::RecordTruncated));
}

#[test]
fn ranges_that_nothing_spans_are_replaced() {
    let values: Vec<F32> = (0..POINT_STRIDE_FLOATS).map(|_| bits(3.0)).collect();
    let raw = QuantizationRanges::from_payload(&values, POINT_STRIDE_FLOATS, 0);
    assert_eq!(number(raw.position_min[0]), 3.0);
    assert_eq!(number(raw.position_max[0]), 3.0);
    let narrow = NarrowRanges {
        position: [true; 3],
        scale: [true, true, false],
        sh: false,
    };
    let ranges = raw.settle(&narrow, 0);
    assert_eq!(number(ranges.position_min[2]), 0.0);
    assert_eq!(number(ranges.position_max[2]), 1.0);
    assert_eq!(number(ranges.scale_min[2]), 3.0);
    assert_eq!(number(ranges.sh_min), -1.0);
    assert_eq!(number(ranges.sh_max), 1.0);
}

#[test]
fn packs_hold_the_ranges_of_their_payload() {
    let (table, mut payload) = two_chunks();
    for splat in payload.chunks_exact_mut(POINT_STRIDE_FLOATS) {
        splat[1] = 6.0;
    }
    let file = pack_of(&payload, &table, 0, 2).expect("write pack");
    let index = read_pack_index("p".to_string(), &file.image).expect("read pack");
    for pack in [&file.index, &index] {
        assert_eq!(pack.position_min.map(number), [0.0, 0.0, 2.0]);
        assert_eq!(pack.position_max.map(number), [400.0, 1.0, 402.0]);
        assert_eq!(pack.scale_min.map(number), [7.0, 8.0, 9.0]);
        assert_eq!(pack.scale_max.map(number), [407.0, 408.0, 409.0]);
        assert_eq!(number(pack.sh_min), -1.0);
        assert_eq!(number(pack.sh_max), 1.0);
    }
}

#[test]
fn tables_are_read_from_buffers_of_their_own() {
    let (table, payload) = two_chunks();
    let file = pack_of(&payload, &table, 0, 2).expect("write pack");
    let whole = read_pack_index("p".to_string(), &file.image).expect("read pack");
    let header = read_header(&file.image[..160]).expect("read header");
    let part = |offset: u64, count: u32, size: usize| {
        let start = offset as usize;
        file.image[start..start + count as usize * size].to_vec()
    };
    let chunks = part(header.chunk_table_offset, header.chunk_count, 64);
    let lods = part(header.node_lod_table_offset, header.node_lod_count, 32);
    let pages = part(header.page_table_offset, header.page_count, 32);
    let read = |chunks: &[u8], lods: &[u8], pages: &[u8]| {
        read_tables("p".to_string(), &header, chunks, 0, lods, 0, pages, 0)
    };
    let index = read(&chunks, &lods, &pages).expect("read tables");
    assert_eq!(index.chunks.len(), 2);
    assert_eq!(index.chunks, whole.chunks);
    assert_eq!(index.lods, whole.lods);
    assert_eq!(index.pages, whole.pages);
    assert_eq!(index.point_count, whole.point_count);
    assert_eq!(
        read(&chunks[1..], &lods, &pages).unwrap_err(),
        PackError::ChunkTableTruncated
    );
    assert_eq!(
        read(&chunks, &lods[1..], &pages).unwrap_err(),
        PackError::LodTableTruncated
    );
    assert_eq!(
        read(&chunks, &lods, &pages[1..]).unwrap_err(),
        PackError::PageTableTruncated
    );
}

#[test]
fn levels_are_lowered_before_chunks_are_dropped() {
    let file = two_rows();
    let views = views_of(&file.index, [0.0, 0.0, 0.0], [1.0, 0.0, 0.0]);
    let limits = limits_of(120.0, 10.0);
    let select = |budget: u32| file.index.select_lods_view_priority(&views, &limits, budget);
    // The levels of both chunks hold 8, 4, 2 and 1 splats.
    assert_eq!(select(1), vec![(0, 1)]);
    assert_eq!(select(2), vec![(0, 1), (1, 1)]);
    assert_eq!(select(3), vec![(0, 2), (1, 1)]);
    assert_eq!(select(15), vec![(0, 8), (1, 4)]);
    assert_eq!(select(16), vec![(0, 8), (1, 8)]);
}

#[test]
fn empty_chunks_may_lie_anywhere() {
    let (mut table, payload) = two_chunks();
    table.entries.push(ChunkEntry {
        offset: 1000,
        count: 0,
        ..table.entries[1]
    });
    let file = pack_of(&payload, &table, 0, 2).expect("write pack");
    assert_eq!(file.index.chunks.len(), 3);
    assert_eq!(file.index.chunks[2].page_count, 0);
}
