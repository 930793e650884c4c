use splat_merge::schema::{parse_ply_header, require_scale, resolve_schema, MergeError, PlyInfo};

fn ply_with_header(header: &str, payload: &[u8]) -> Vec<u8> {
    let mut v = header.as_bytes().to_vec();
    v.extend_from_slice(payload);
    v
}

#[test]
fn parses_basic_header() {
    let header = "ply\nformat binary_little_endian 1.0\nelement vertex 2\nproperty float x\nproperty float y\nproperty float z\nend_header\n";
    let payload = [1u8; 24];
    let data = ply_with_header(header, &payload);
    let info = parse_ply_header(&data).unwrap();
    assert_eq!(info.header_len, header.len());
    assert_eq!(info.vertex_count, 2);
    assert_eq!(info.stride, 12);
    assert_eq!(info.scale_offset, None);
    assert_eq!(info.raw_header, header.as_bytes().to_vec());
}

#[test]
fn parses_crlf_header() {
    let header = "ply\r\nelement vertex 1\r\nproperty float x\r\nend_header\r\n";
    let payload = [1u8, 2, 3, 4];
    let data = ply_with_header(header, &payload);
    let info = parse_ply_header(&data).unwrap();
    assert_eq!(info.header_len, header.len());
    assert_eq!(info.vertex_count, 1);
    assert_eq!(info.stride, 4);
    // The raw header is newline-normalized.
    assert_eq!(
        info.raw_header,
        "ply\nelement vertex 1\nproperty float x\nend_header\n".as_bytes().to_vec()
    );
}

#[test]
fn records_scale_offset_before_its_own_field() {
    let header = "ply\nelement vertex 1\nproperty float x\nproperty float y\nproperty float z\nproperty float scale_0\nproperty float scale_1\nproperty float scale_2\nend_header\n";
    let data = ply_with_header(header, &[0u8; 24]);
    let info = parse_ply_header(&data).unwrap();
    assert_eq!(info.stride, 24);
    assert_eq!(info.scale_offset, Some(12));
}

#[test]
fn accumulates_double_and_byte_widths() {
    let header = "ply\nelement vertex 1\nproperty float x\nproperty double t\nproperty uchar red\nproperty uint8 green\nproperty int16 odd\nend_header\n";
    let data = ply_with_header(header, &[7u8; 14]);
    let info = parse_ply_header(&data).unwrap();
    // 4 + 8 + 1 + 1; the unknown type contributes nothing.
    assert_eq!(info.stride, 14);
}

#[test]
fn rejects_missing_end_header() {
    let data = "ply\nelement vertex 3\nproperty float x\n".as_bytes().to_vec();
    assert!(matches!(parse_ply_header(&data), Err(MergeError::HeaderParseFailure)));
}

#[test]
fn rejects_non_numeric_vertex_count() {
    let data = "ply\nelement vertex many\nend_header\n".as_bytes().to_vec();
    assert!(matches!(parse_ply_header(&data), Err(MergeError::HeaderParseFailure)));
}

#[test]
fn rejects_empty_input() {
    let data: Vec<u8> = Vec::new();
    assert!(matches!(parse_ply_header(&data), Err(MergeError::HeaderParseFailure)));
}

fn info_with_stride(stride: usize) -> PlyInfo {
    PlyInfo {
        header_len: 0,
        vertex_count: 0,
        stride,
        raw_header: "end_header\n".as_bytes().to_vec(),
        scale_offset: None,
    }
}

#[test]
fn stride_mismatch_is_rejected() {
    let a = info_with_stride(12);
    let b = info_with_stride(16);
    assert_eq!(
        resolve_schema(Some(&a), Some(&b)),
        Err(MergeError::SchemaMismatch)
    );
}

#[test]
fn matching_strides_take_first_header() {
    let mut a = info_with_stride(12);
    a.raw_header = "ply one\n".as_bytes().to_vec();
    let mut b = info_with_stride(12);
    b.raw_header = "ply two\n".as_bytes().to_vec();
    let (stride, header) = resolve_schema(Some(&a), Some(&b)).unwrap();
    assert_eq!(stride, 12);
    assert_eq!(header, a.raw_header);
}

#[test]
fn single_present_input_wins() {
    let b = info_with_stride(20);
    let (stride, header) = resolve_schema(None, Some(&b)).unwrap();
    assert_eq!(stride, 20);
    assert_eq!(header, b.raw_header);
}

#[test]
fn both_absent_is_a_configuration_error() {
    assert_eq!(
        resolve_schema(None, None),
        Err(MergeError::InvalidConfiguration)
    );
}

#[test]
fn missing_scale_field_is_rejected() {
    let info = info_with_stride(12);
    assert_eq!(require_scale(&info), Err(MergeError::MissingScaleField));
}

#[test]
fn present_scale_field_is_returned() {
    let mut info = info_with_stride(24);
    info.scale_offset = Some(12);
    assert_eq!(require_scale(&info), Ok(12));
}

#[test]
fn rejects_oversized_vertex_count() {
    let data = "ply\nelement vertex 99999999999999999999999\nend_header\n".as_bytes().to_vec();
    assert!(matches!(parse_ply_header(&data), Err(MergeError::HeaderParseFailure)));
}

#[test]
fn count_is_the_last_whitespace_delimited_token() {
    let data = "ply\nelement vertex 7 \nend_header\n".as_bytes().to_vec();
    let info = parse_ply_header(&data).unwrap();
    assert_eq!(info.vertex_count, 7);
}

#[test]
fn element_vertex_line_without_count_is_rejected() {
    let data = "ply\nelement vertex \nend_header\n".as_bytes().to_vec();
    assert!(matches!(parse_ply_header(&data), Err(MergeError::HeaderParseFailure)));
}
