use color_api::format::{detect_format, extract_icc, DetectedFormat};
use color_api::jpeg::extract_jpeg_icc;
use color_api::png::extract_png_icc;
use std::io::Write;

fn app2_icc_segment(seq: u8, total: u8, payload: &[u8]) -> Vec<u8> {
    let len = payload.len() + 16;
    let mut seg = vec![0xFF, 0xE2, (len >> 8) as u8, (len & 0xFF) as u8];
    seg.extend_from_slice(b"ICC_PROFILE\0");
    seg.push(seq);
    seg.push(total);
    seg.extend_from_slice(payload);
    seg
}

fn segment(marker: u8, body: &[u8]) -> Vec<u8> {
    let len = body.len() + 2;
    let mut seg = vec![0xFF, marker, (len >> 8) as u8, (len & 0xFF) as u8];
    seg.extend_from_slice(body);
    seg
}

fn jpeg(segments: &[Vec<u8>]) -> Vec<u8> {
    let mut data = vec![0xFF, 0xD8];
    for s in segments {
        data.extend_from_slice(s);
    }
    data
}

fn zlib(bytes: &[u8]) -> Vec<u8> {
    let mut enc = flate2::write::ZlibEncoder::new(Vec::new(), flate2::Compression::default());
    enc.write_all(bytes).unwrap();
    enc.finish().unwrap()
}

fn png_chunk(ty: &[u8; 4], body: &[u8]) -> Vec<u8> {
    let mut c = (body.len() as u32).to_be_bytes().to_vec();
    c.extend_from_slice(ty);
    c.extend_from_slice(body);
    c.extend_from_slice(&[0, 0, 0, 0]);
    c
}

fn png(chunks: &[Vec<u8>]) -> Vec<u8> {
    let mut data = vec![0x89, b'P', b'N', b'G', 0x0D, 0x0A, 0x1A, 0x0A];
    for c in chunks {
        data.extend_from_slice(c);
    }
    data
}

fn iccp_body(name: &[u8], profile: &[u8]) -> Vec<u8> {
    let mut body = name.to_vec();
    body.push(0);
    body.push(0);
    body.extend_from_slice(&zlib(profile));
    body
}

#[test]
fn detects_jpeg_png_and_other() {
    assert_eq!(detect_format(&[0xFF, 0xD8, 0xFF]), DetectedFormat::Jpeg);
    assert_eq!(detect_format(&png(&[])), DetectedFormat::Png);
    assert_eq!(detect_format(b"GIF89a"), DetectedFormat::Other);
    assert_eq!(detect_format(&[]), DetectedFormat::Other);
    assert_eq!(detect_format(&[0xFF]), DetectedFormat::Other);
    assert_eq!(detect_format(&[0x89, b'P', b'N', b'G']), DetectedFormat::Other);
}

#[test]
fn jpeg_single_chunk_profile_comes_back() {
    let data = jpeg(&[app2_icc_segment(1, 1, b"profile-bytes"), vec![0xFF, 0xDA]]);
    assert_eq!(extract_jpeg_icc(&data), Some(b"profile-bytes".to_vec()));
}

#[test]
fn jpeg_chunks_are_joined_in_sequence_order() {
    let data = jpeg(&[
        app2_icc_segment(2, 3, b"BBB"),
        segment(0xE0, b"JFIF\0"),
        app2_icc_segment(3, 3, b"CC"),
        app2_icc_segment(1, 3, b"A"),
    ]);
    assert_eq!(extract_jpeg_icc(&data), Some(b"ABBBCC".to_vec()));
}

#[test]
fn jpeg_repeated_sequence_number_keeps_last_chunk() {
    let data = jpeg(&[app2_icc_segment(1, 1, b"old"), app2_icc_segment(1, 1, b"new")]);
    assert_eq!(extract_jpeg_icc(&data), Some(b"new".to_vec()));
}

#[test]
fn jpeg_without_soi_or_icc_gives_none() {
    let mut no_soi = jpeg(&[app2_icc_segment(1, 1, b"x")]);
    no_soi[1] = 0xD9;
    assert_eq!(extract_jpeg_icc(&no_soi), None);
    assert_eq!(extract_jpeg_icc(&[0xFF]), None);
    let plain = jpeg(&[segment(0xE0, b"JFIF\0"), segment(0xE2, b"MPF\0xxxxxxxxxxxxx")]);
    assert_eq!(extract_jpeg_icc(&plain), None);
}

#[test]
fn jpeg_walk_stops_at_start_of_scan() {
    let data = jpeg(&[vec![0xFF, 0xDA, 0x00, 0x02], app2_icc_segment(1, 1, b"late")]);
    assert_eq!(extract_jpeg_icc(&data), None);
}

#[test]
fn jpeg_walk_skips_standalone_markers() {
    let data = jpeg(&[vec![0xFF, 0xD0], vec![0xFF, 0x01], app2_icc_segment(1, 1, b"ok")]);
    assert_eq!(extract_jpeg_icc(&data), Some(b"ok".to_vec()));
}

#[test]
fn jpeg_walk_stops_at_bad_length() {
    let mut truncated = app2_icc_segment(1, 1, b"payload");
    truncated.truncate(truncated.len() - 2);
    assert_eq!(extract_jpeg_icc(&jpeg(&[truncated])), None);
    let short_len = vec![0xFF, 0xE2, 0x00, 0x01, 0, 0];
    assert_eq!(extract_jpeg_icc(&jpeg(&[short_len, app2_icc_segment(1, 1, b"x")])), None);
    let not_marker = vec![0x00, 0xE2, 0x00, 0x04, 0, 0];
    assert_eq!(extract_jpeg_icc(&jpeg(&[not_marker])), None);
}

#[test]
fn jpeg_icc_segment_needs_full_header() {
    // 13 body bytes: the signature and a sequence number but no count byte.
    let mut body = b"ICC_PROFILE\0".to_vec();
    body.push(1);
    let data = jpeg(&[segment(0xE2, &body)]);
    assert_eq!(extract_jpeg_icc(&data), None);
    // An empty payload still counts as a chunk.
    let data = jpeg(&[app2_icc_segment(1, 1, b"")]);
    assert_eq!(extract_jpeg_icc(&data), Some(Vec::new()));
}

#[test]
fn png_iccp_profile_is_decompressed() {
    let profile: Vec<u8> = (0..300u32).map(|i| (i * 7 % 251) as u8).collect();
    let data = png(&[
        png_chunk(b"IHDR", &[0; 13]),
        png_chunk(b"iCCP", &iccp_body(b"Display P3", &profile)),
        png_chunk(b"IDAT", &[1, 2, 3]),
    ]);
    let got = extract_png_icc(&data).unwrap();
    assert_eq!(got, profile);
    assert_ne!(got, zlib(&profile));
}

#[test]
fn png_stops_at_idat() {
    let data = png(&[
        png_chunk(b"IDAT", &[1, 2, 3]),
        png_chunk(b"iCCP", &iccp_body(b"p", b"profile")),
    ]);
    assert_eq!(extract_png_icc(&data), None);
}

#[test]
fn png_malformed_iccp_gives_none() {
    // No NUL after the name.
    let data = png(&[png_chunk(b"iCCP", b"name-without-terminator")]);
    assert_eq!(extract_png_icc(&data), None);
    // NUL but no compression-method byte.
    let data = png(&[png_chunk(b"iCCP", b"name\0")]);
    assert_eq!(extract_png_icc(&data), None);
    // Not a zlib stream.
    let data = png(&[png_chunk(b"iCCP", b"name\0\0not zlib")]);
    assert_eq!(extract_png_icc(&data), None);
    // Declared length runs past the data.
    let mut chunk = png_chunk(b"iCCP", &iccp_body(b"p", b"profile"));
    chunk[3] = 0xFF;
    assert_eq!(extract_png_icc(&png(&[chunk])), None);
    // Not a PNG.
    assert_eq!(extract_png_icc(b"\x89PNX\r\n\x1a\n"), None);
}

#[test]
fn extract_icc_dispatches_on_format() {
    let j = jpeg(&[app2_icc_segment(1, 1, b"jpeg-profile")]);
    assert_eq!(extract_icc(&j), Some(b"jpeg-profile".to_vec()));
    let p = png(&[png_chunk(b"iCCP", &iccp_body(b"n", b"png-profile"))]);
    assert_eq!(extract_icc(&p), Some(b"png-profile".to_vec()));
    assert_eq!(extract_icc(b"BM\0\0\0\0"), None);
}

#[test]
fn split_profile_reassembles() {
    let profile: Vec<u8> = (0..10_000u32).map(|i| (i % 253) as u8).collect();
    let pieces: Vec<&[u8]> = profile.chunks(97).collect();
    let total = pieces.len() as u8;
    let segments: Vec<Vec<u8>> = pieces
        .iter()
        .enumerate()
        .map(|(i, p)| app2_icc_segment((i + 1) as u8, total, p))
        .collect();
    let mut data = jpeg(&segments);
    data.extend_from_slice(&[0xFF, 0xDA, 0x00, 0x08]);
    assert_eq!(extract_jpeg_icc(&data), Some(profile.clone()));
    assert_eq!(extract_icc(&data), Some(profile));
}
