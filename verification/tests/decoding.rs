use color_api::decode::{decode_upload, format_name, ImageKind, UploadError};
use color_api::format::extract_icc;
use color_api::service::DimensionError;
use image::codecs::jpeg::JpegEncoder;
use image::codecs::png::PngEncoder;
use image::{ExtendedColorType, ImageEncoder};

fn desc_profile(text: &[u8]) -> Vec<u8> {
    let mut body = b"desc\0\0\0\0".to_vec();
    body.extend_from_slice(&((text.len() + 1) as u32).to_be_bytes());
    body.extend_from_slice(text);
    body.push(0);
    let mut icc = vec![0u8; 128];
    icc[36..40].copy_from_slice(b"acsp");
    icc.extend_from_slice(&1u32.to_be_bytes());
    icc.extend_from_slice(b"desc");
    icc.extend_from_slice(&144u32.to_be_bytes());
    icc.extend_from_slice(&(body.len() as u32).to_be_bytes());
    icc.extend_from_slice(&body);
    icc
}

fn png_bytes(width: u32, height: u32, pixels: &[u8], icc: Option<Vec<u8>>) -> Vec<u8> {
    let mut out = Vec::new();
    let mut enc = PngEncoder::new(&mut out);
    if let Some(p) = icc {
        enc.set_icc_profile(p).unwrap();
    }
    enc.write_image(pixels, width, height, ExtendedColorType::Rgb8).unwrap();
    out
}

#[test]
fn png_upload_with_profile() {
    let icc = desc_profile(b"Test Profile");
    let pixels = [10u8, 20, 30, 200, 100, 50];
    let bytes = png_bytes(2, 1, &pixels, Some(icc.clone()));
    assert_eq!(extract_icc(&bytes), Some(icc.clone()));
    let up = match decode_upload(&bytes) {
        Ok(u) => u,
        Err(_) => panic!("decoding failed"),
    };
    assert_eq!((up.width, up.height), (2, 1));
    assert_eq!(up.rgb, pixels.to_vec());
    assert_eq!(up.icc, Some(icc));
    assert_eq!(up.format, "PNG");
    assert_eq!(up.color_space, "Test Profile");
    assert!(up.icc_present);
}

#[test]
fn jpeg_upload_without_profile() {
    let mut out = Vec::new();
    JpegEncoder::new(&mut out)
        .write_image(&[128u8; 4 * 4 * 3], 4, 4, ExtendedColorType::Rgb8)
        .unwrap();
    let up = match decode_upload(&out) {
        Ok(u) => u,
        Err(_) => panic!("decoding failed"),
    };
    assert_eq!((up.width, up.height), (4, 4));
    assert_eq!(up.rgb.len(), 3 * up.width as usize * up.height as usize);
    assert_eq!(up.format, "JPEG");
    assert_eq!(up.color_space, "Untagged");
    assert!(!up.icc_present);
    assert!(up.icc.is_none());
}

#[test]
fn undecodable_upload_is_a_decode_error() {
    match decode_upload(b"not an image at all") {
        Err(UploadError::Decode(message)) => assert!(!message.is_empty()),
        _ => panic!("expected a decode error"),
    }
}

#[test]
fn oversized_upload_is_rejected() {
    let pixels = vec![0u8; 65536 * 3];
    let bytes = png_bytes(65536, 1, &pixels, None);
    assert!(matches!(
        decode_upload(&bytes),
        Err(UploadError::Size(DimensionError::WidthTooLarge))
    ));
    let bytes = png_bytes(1, 65536, &pixels, None);
    assert!(matches!(
        decode_upload(&bytes),
        Err(UploadError::Size(DimensionError::HeightTooLarge))
    ));
}

#[test]
fn format_names() {
    assert_eq!(format_name(ImageKind::Jpeg), "JPEG");
    assert_eq!(format_name(ImageKind::Png), "PNG");
    assert_eq!(format_name(ImageKind::Gif), "GIF");
    assert_eq!(format_name(ImageKind::WebP), "WebP");
    assert_eq!(format_name(ImageKind::Bmp), "BMP");
    assert_eq!(format_name(ImageKind::Tiff), "TIFF");
    assert_eq!(format_name(ImageKind::Unknown), "Unknown");
}
