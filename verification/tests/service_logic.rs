use color_api::service::{
    candidate_count, checked_dimensions, default_n, hex_color, is_image_field, normalized_count,
    required_image_id, DimensionError,
};
use color_api::store::{ImageStore, MAX_STORED_IMAGES};

#[test]
fn default_colour_count_is_five() {
    assert_eq!(default_n(), 5);
}

#[test]
fn hex_colour_is_upper_case_rrggbb() {
    assert_eq!(hex_color(0xAB, 0x0C, 0xFF), "#AB0CFF");
    assert_eq!(hex_color(0, 0, 0), "#000000");
    assert_eq!(hex_color(255, 128, 9), "#FF8009");
    for v in 0..=255u8 {
        assert_eq!(hex_color(v, v, v), format!("#{:02X}{:02X}{:02X}", v, v, v));
    }
}

#[test]
fn candidate_count_with_and_without_bias() {
    assert_eq!(candidate_count(5, false), 5);
    assert_eq!(candidate_count(40, false), 40);
    assert_eq!(candidate_count(5, true), 13);
    assert_eq!(candidate_count(8, true), 16);
    assert_eq!(candidate_count(12, true), 16);
    assert_eq!(candidate_count(usize::MAX, true), 16);
    assert_eq!(candidate_count(0, true), 8);
}

#[test]
fn upload_field_selection() {
    assert!(is_image_field("image", ""));
    assert!(is_image_field("file", "application/octet-stream"));
    assert!(is_image_field("other", "image/png"));
    assert!(is_image_field("", "image/"));
    assert!(!is_image_field("images", "text/plain"));
    assert!(!is_image_field("fil", "imag/png"));
    assert!(!is_image_field("Image", "Image/png"));
}

#[test]
fn image_id_must_be_present_and_non_empty() {
    assert_eq!(required_image_id(Some("abc".to_string())), Some("abc".to_string()));
    assert_eq!(required_image_id(Some(String::new())), None);
    assert_eq!(required_image_id(None), None);
}

#[test]
fn dimensions_must_fit_sixteen_bits() {
    assert_eq!(checked_dimensions(640, 480), Ok((640, 480)));
    assert_eq!(checked_dimensions(65535, 65535), Ok((65535, 65535)));
    assert_eq!(checked_dimensions(65536, 10), Err(DimensionError::WidthTooLarge));
    assert_eq!(checked_dimensions(65536, 70000), Err(DimensionError::WidthTooLarge));
    assert_eq!(checked_dimensions(10, 65536), Err(DimensionError::HeightTooLarge));
}

#[test]
fn store_keeps_the_newest_images() {
    let mut store: ImageStore<u32> = ImageStore::new();
    assert_eq!(store.len(), 0);
    for i in 0..(MAX_STORED_IMAGES as u32 + 5) {
        store.insert(format!("id-{i}"), i);
        assert_eq!(store.get(&format!("id-{i}")), Some(&i));
        assert!(store.len() <= MAX_STORED_IMAGES);
    }
    assert_eq!(store.len(), MAX_STORED_IMAGES);
    for i in 0..5u32 {
        assert_eq!(store.get(&format!("id-{i}")), None);
    }
    assert_eq!(store.get(&"id-5".to_string()), Some(&5));
    assert_eq!(store.get(&"missing".to_string()), None);
}

#[test]
fn store_replaces_an_image_under_the_same_id() {
    let mut store: ImageStore<&str> = ImageStore::new();
    store.insert("a".to_string(), "first");
    store.insert("b".to_string(), "other");
    store.insert("a".to_string(), "second");
    assert_eq!(store.len(), 2);
    assert_eq!(store.get(&"a".to_string()), Some(&"second"));
}

#[test]
fn colour_count_is_at_least_one() {
    assert_eq!(normalized_count(0), 1);
    assert_eq!(normalized_count(1), 1);
    assert_eq!(normalized_count(7), 7);
}
