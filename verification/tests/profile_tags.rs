use color_api::profile::{find_tag, icc_primaries, parse_xyz};

fn xyz_tag(x: i32, y: i32, z: i32) -> Vec<u8> {
    let mut t = b"XYZ \0\0\0\0".to_vec();
    t.extend_from_slice(&x.to_be_bytes());
    t.extend_from_slice(&y.to_be_bytes());
    t.extend_from_slice(&z.to_be_bytes());
    t
}

/// A profile with the given tags laid out after the tag table.
fn profile(tags: &[(&[u8; 4], Vec<u8>)], acsp: bool) -> Vec<u8> {
    let mut icc = vec![0u8; 128];
    if acsp {
        icc[36..40].copy_from_slice(b"acsp");
    }
    icc.extend_from_slice(&(tags.len() as u32).to_be_bytes());
    let mut offset = 132 + 12 * tags.len();
    let mut data = Vec::new();
    for (sig, body) in tags {
        icc.extend_from_slice(*sig);
        icc.extend_from_slice(&(offset as u32).to_be_bytes());
        icc.extend_from_slice(&(body.len() as u32).to_be_bytes());
        offset += body.len();
        data.extend_from_slice(body);
    }
    icc.extend_from_slice(&data);
    icc
}

fn fixed(v: f64) -> i32 {
    (v * 65536.0).round() as i32
}

#[test]
fn find_tag_returns_tag_data() {
    let icc = profile(&[(b"wtpt", vec![1, 2, 3]), (b"rXYZ", vec![9, 8, 7, 6])], false);
    assert_eq!(find_tag(&icc, b"rXYZ"), Some(&[9u8, 8, 7, 6][..]));
    assert_eq!(find_tag(&icc, b"wtpt"), Some(&[1u8, 2, 3][..]));
    assert_eq!(find_tag(&icc, b"gXYZ"), None);
}

#[test]
fn find_tag_skips_entries_out_of_bounds() {
    let mut icc = profile(&[(b"rXYZ", vec![5; 4]), (b"rXYZ", vec![6; 4])], false);
    // Point the first entry's data past the end: the second entry is used.
    icc[132 + 4..132 + 8].copy_from_slice(&10_000u32.to_be_bytes());
    assert_eq!(find_tag(&icc, b"rXYZ"), Some(&[6u8; 4][..]));
}

#[test]
fn find_tag_short_or_truncated_table() {
    assert_eq!(find_tag(&[0u8; 131], b"rXYZ"), None);
    let mut icc = profile(&[(b"rXYZ", vec![5; 4])], false);
    // Declare more entries than the profile holds.
    icc[128..132].copy_from_slice(&1000u32.to_be_bytes());
    assert_eq!(find_tag(&icc, b"rXYZ"), Some(&[5u8; 4][..]));
    assert_eq!(find_tag(&icc, b"bXYZ"), None);
    // Declare no entries.
    icc[128..132].copy_from_slice(&0u32.to_be_bytes());
    assert_eq!(find_tag(&icc, b"rXYZ"), None);
}

#[test]
fn parse_xyz_reads_s15_fixed16() {
    let t = xyz_tag(fixed(0.43607), fixed(0.22249), -65536);
    assert_eq!(parse_xyz(&t), Some([fixed(0.43607), fixed(0.22249), -65536]));
    assert_eq!(parse_xyz(&t[..19]), None);
    let mut wrong = t.clone();
    wrong[0] = b'x';
    assert_eq!(parse_xyz(&wrong), None);
    let raw = [b'X', b'Y', b'Z', b' ', 0, 0, 0, 0, 0, 1, 0, 0, 0xFF, 0xFF, 0xFF, 0xFF, 0x80, 0, 0, 0];
    assert_eq!(parse_xyz(&raw), Some([65536, -1, i32::MIN]));
}

#[test]
fn icc_primaries_reads_the_three_colorants() {
    let r = [fixed(0.51512), fixed(0.24120), fixed(-0.00105)];
    let g = [fixed(0.29198), fixed(0.69225), fixed(0.04189)];
    let b = [fixed(0.15710), fixed(0.06657), fixed(0.78408)];
    let tags = [
        (b"rXYZ", xyz_tag(r[0], r[1], r[2])),
        (b"gXYZ", xyz_tag(g[0], g[1], g[2])),
        (b"bXYZ", xyz_tag(b[0], b[1], b[2])),
    ];
    let icc = profile(&tags, true);
    let p = icc_primaries(&icc).unwrap();
    assert_eq!(p.red, r);
    assert_eq!(p.green, g);
    assert_eq!(p.blue, b);
    // Without the `acsp` signature nothing is read.
    assert!(icc_primaries(&profile(&tags, false)).is_none());
    // A missing colorant gives nothing.
    assert!(icc_primaries(&profile(&tags[..2], true)).is_none());
}
