use splat_merge::output::{build_output, decimal_bytes, rewrite_header};
use splat_merge::schema::parse_ply_header;
use splat_merge::select::{select_scale, select_voxel};

fn ply_xyz(points: &[[f32; 3]]) -> Vec<u8> {
    let header = format!(
        "ply\nformat binary_little_endian 1.0\nelement vertex {}\nproperty float x\nproperty float y\nproperty float z\nend_header\n",
        points.len()
    );
    let mut v = header.into_bytes();
    for p in points {
        for c in p {
            v.extend_from_slice(&c.to_le_bytes());
        }
    }
    v
}

fn ply_xyz_scale(points: &[[f32; 6]]) -> Vec<u8> {
    let header = format!(
        "ply\nformat binary_little_endian 1.0\nelement vertex {}\nproperty float x\nproperty float y\nproperty float z\nproperty float scale_0\nproperty float scale_1\nproperty float scale_2\nend_header\n",
        points.len()
    );
    let mut v = header.into_bytes();
    for p in points {
        for c in p {
            v.extend_from_slice(&c.to_le_bytes());
        }
    }
    v
}

fn voxel_key(data: &[u8], header_len: usize, stride: usize, idx: usize, vs: f32) -> (i32, i32, i32) {
    let base = header_len + idx * stride;
    let x = f32::from_le_bytes(data[base..base + 4].try_into().unwrap());
    let y = f32::from_le_bytes(data[base + 4..base + 8].try_into().unwrap());
    let z = f32::from_le_bytes(data[base + 8..base + 12].try_into().unwrap());
    ((x / vs).floor() as i32, (y / vs).floor() as i32, (z / vs).floor() as i32)
}

fn max_scale(data: &[u8], header_len: usize, stride: usize, idx: usize, off: usize) -> f32 {
    let base = header_len + idx * stride + off;
    let s0 = f32::from_le_bytes(data[base..base + 4].try_into().unwrap());
    let s1 = f32::from_le_bytes(data[base + 4..base + 8].try_into().unwrap());
    let s2 = f32::from_le_bytes(data[base + 8..base + 12].try_into().unwrap());
    s0.max(s1).max(s2).exp()
}

#[test]
fn renders_decimal_counts() {
    assert_eq!(decimal_bytes(0), "0".as_bytes().to_vec());
    assert_eq!(decimal_bytes(7), "7".as_bytes().to_vec());
    assert_eq!(decimal_bytes(1234), "1234".as_bytes().to_vec());
    assert_eq!(decimal_bytes(1000000), "1000000".as_bytes().to_vec());
}

#[test]
fn rewrites_only_the_vertex_count_line() {
    let header = "ply\nelement vertex 7\ncomment untouched\nend_header\n".as_bytes().to_vec();
    let out = rewrite_header(&header, 42);
    assert_eq!(
        out,
        "ply\nelement vertex 42\ncomment untouched\nend_header\n".as_bytes().to_vec()
    );
}

#[test]
fn rewriting_closes_an_unterminated_last_line() {
    let header = "ply\nelement vertex 1\nend_header".as_bytes().to_vec();
    let out = rewrite_header(&header, 3);
    assert_eq!(out, "ply\nelement vertex 3\nend_header\n".as_bytes().to_vec());
}

#[test]
fn voxel_merge_keeps_the_denser_capture() {
    // Input A: 4 records in voxel (0,0,0); input B: 2 records in the same
    // voxel; the output holds exactly A's records and a count of 4.
    let vs = 10.0f32;
    let a = ply_xyz(&[[1.0, 1.0, 1.0], [2.0, 2.0, 2.0], [3.0, 3.0, 3.0], [4.0, 4.0, 4.0]]);
    let b = ply_xyz(&[[5.0, 5.0, 5.0], [6.0, 6.0, 6.0]]);
    let ia = parse_ply_header(&a).unwrap();
    let ib = parse_ply_header(&b).unwrap();
    assert_eq!(ia.stride, ib.stride);
    let keys_a: Vec<(i32, i32, i32)> =
        (0..ia.vertex_count).map(|i| voxel_key(&a, ia.header_len, ia.stride, i, vs)).collect();
    let keys_b: Vec<(i32, i32, i32)> =
        (0..ib.vertex_count).map(|i| voxel_key(&b, ib.header_len, ib.stride, i, vs)).collect();
    let (kept1, kept2) = select_voxel(&keys_a, &keys_b);
    assert_eq!(kept1.len(), 4);
    assert_eq!(kept2.len(), 0);
    let out = build_output(&ia.raw_header, &a, ia.header_len, &kept1, &b, ib.header_len, &kept2, ia.stride);
    // The rewritten count equals the original, so the output is byte-identical
    // to input A.
    assert_eq!(out, a);
}

#[test]
fn absent_second_input_reproduces_the_first() {
    let vs = 0.5f32;
    let a = ply_xyz(&[[0.1, 0.2, 0.3], [10.0, -4.0, 2.5], [-7.25, 3.5, 0.0]]);
    let ia = parse_ply_header(&a).unwrap();
    let keys_a: Vec<(i32, i32, i32)> =
        (0..ia.vertex_count).map(|i| voxel_key(&a, ia.header_len, ia.stride, i, vs)).collect();
    let keys_b: Vec<(i32, i32, i32)> = Vec::new();
    let (kept1, kept2) = select_voxel(&keys_a, &keys_b);
    assert_eq!(kept1, vec![0, 1, 2]);
    assert_eq!(kept2, Vec::<usize>::new());
    let empty: Vec<u8> = Vec::new();
    let out = build_output(&ia.raw_header, &a, ia.header_len, &kept1, &empty, 0, &kept2, ia.stride);
    assert_eq!(out, a);
}

#[test]
fn scale_merge_partitions_one_file_completely() {
    // The same file on both sides: every record is kept exactly once, small
    // ones from the first pass, large ones from the second.
    let threshold = 0.1f32;
    // exp(-5) is about 0.0067 (small); exp(0) is 1.0 (large).
    let f = ply_xyz_scale(&[
        [1.0, 1.0, 1.0, -5.0, -6.0, -7.0],
        [2.0, 2.0, 2.0, 0.0, -1.0, -2.0],
        [3.0, 3.0, 3.0, -5.5, -5.0, -6.5],
    ]);
    let info = parse_ply_header(&f).unwrap();
    assert_eq!(info.stride, 24);
    let off = info.scale_offset.unwrap();
    assert_eq!(off, 12);
    let small: Vec<bool> = (0..info.vertex_count)
        .map(|i| max_scale(&f, info.header_len, info.stride, i, off) < threshold)
        .collect();
    assert_eq!(small, vec![true, false, true]);
    let (kept1, kept2) = select_scale(&small, &small);
    assert_eq!(kept1, vec![0, 2]);
    assert_eq!(kept2, vec![1]);
    assert_eq!(kept1.len() + kept2.len(), info.vertex_count);
    let out = build_output(&info.raw_header, &f, info.header_len, &kept1, &f, info.header_len, &kept2, info.stride);
    // Same count, records reordered: 0, 2, then 1.
    let mut expected = info.raw_header.clone();
    for idx in [0usize, 2, 1] {
        let base = info.header_len + idx * info.stride;
        expected.extend_from_slice(&f[base..base + info.stride]);
    }
    assert_eq!(out, expected);
}

#[test]
fn merge_combines_disjoint_regions() {
    // Two captures of different regions: everything survives, count updated.
    let vs = 0.5f32;
    let a = ply_xyz(&[[0.0, 0.0, 0.0], [0.1, 0.1, 0.1]]);
    let b = ply_xyz(&[[100.0, 100.0, 100.0]]);
    let ia = parse_ply_header(&a).unwrap();
    let ib = parse_ply_header(&b).unwrap();
    let keys_a: Vec<(i32, i32, i32)> =
        (0..ia.vertex_count).map(|i| voxel_key(&a, ia.header_len, ia.stride, i, vs)).collect();
    let keys_b: Vec<(i32, i32, i32)> =
        (0..ib.vertex_count).map(|i| voxel_key(&b, ib.header_len, ib.stride, i, vs)).collect();
    let (kept1, kept2) = select_voxel(&keys_a, &keys_b);
    assert_eq!(kept1, vec![0, 1]);
    assert_eq!(kept2, vec![0]);
    let out = build_output(&ia.raw_header, &a, ia.header_len, &kept1, &b, ib.header_len, &kept2, ia.stride);
    let mut expected =
        "ply\nformat binary_little_endian 1.0\nelement vertex 3\nproperty float x\nproperty float y\nproperty float z\nend_header\n"
            .as_bytes()
            .to_vec();
    expected.extend_from_slice(&a[ia.header_len..]);
    expected.extend_from_slice(&b[ib.header_len..]);
    assert_eq!(out, expected);
}
