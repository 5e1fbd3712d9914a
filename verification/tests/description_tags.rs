use color_api::description::profile_description;

fn profile_with_desc(body: &[u8]) -> Vec<u8> {
    let mut icc = vec![0u8; 128];
    icc.extend_from_slice(&1u32.to_be_bytes());
    icc.extend_from_slice(b"desc");
    icc.extend_from_slice(&144u32.to_be_bytes());
    icc.extend_from_slice(&(body.len() as u32).to_be_bytes());
    icc.extend_from_slice(body);
    icc
}

fn text_desc(text: &[u8]) -> Vec<u8> {
    let mut t = b"desc\0\0\0\0".to_vec();
    t.extend_from_slice(&((text.len() + 1) as u32).to_be_bytes());
    t.extend_from_slice(text);
    t.push(0);
    t.extend_from_slice(&[0; 20]);
    t
}

fn mluc_desc(text: &str) -> Vec<u8> {
    let units: Vec<u16> = text.encode_utf16().collect();
    let mut t = b"mluc\0\0\0\0".to_vec();
    t.extend_from_slice(&1u32.to_be_bytes());
    t.extend_from_slice(&12u32.to_be_bytes());
    t.extend_from_slice(b"enUS");
    t.extend_from_slice(&((units.len() * 2) as u32).to_be_bytes());
    t.extend_from_slice(&28u32.to_be_bytes());
    for u in units {
        t.extend_from_slice(&u.to_be_bytes());
    }
    t
}

#[test]
fn version_two_text_description() {
    let icc = profile_with_desc(&text_desc(b"sRGB IEC61966-2.1"));
    assert_eq!(profile_description(&icc), Some("sRGB IEC61966-2.1".to_string()));
}

#[test]
fn version_four_unicode_description() {
    let icc = profile_with_desc(&mluc_desc("Display P3"));
    assert_eq!(profile_description(&icc), Some("Display P3".to_string()));
    let icc = profile_with_desc(&mluc_desc("Farbe \u{1F308} é"));
    assert_eq!(profile_description(&icc), Some("Farbe \u{1F308} é".to_string()));
}

#[test]
fn unpaired_surrogate_becomes_replacement_character() {
    let mut body = mluc_desc("ab");
    // Replace the second code unit by a lone high surrogate.
    let n = body.len();
    body[n - 2] = 0xD8;
    body[n - 1] = 0x3D;
    let icc = profile_with_desc(&body);
    assert_eq!(profile_description(&icc), Some("a\u{FFFD}".to_string()));
}

#[test]
fn missing_or_empty_description_gives_none() {
    assert_eq!(profile_description(&profile_with_desc(&text_desc(b""))), None);
    assert_eq!(profile_description(&profile_with_desc(b"text\0\0\0\0abcd")), None);
    let mut icc = profile_with_desc(&text_desc(b"x"));
    icc[132..136].copy_from_slice(b"cprt");
    assert_eq!(profile_description(&icc), None);
    assert_eq!(profile_description(&[]), None);
}
