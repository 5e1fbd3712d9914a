//! Decoding an uploaded image into packed RGB-8 pixels, and the facts the
//! service records about it: container format, embedded ICC profile and its
//! description, and the size limit.

use image::ImageDecoder;
use image::ImageFormat as F;
use image::{DynamicImage, ImageReader};
use std::io::Cursor;
use self::ImageKind::{Bmp, Gif, Jpeg, Png, Tiff, Unknown, WebP};
use vstd::prelude::*;
use crate::description::{profile_description, profile_description_text};
use crate::jpeg::opt_bytes;
use crate::service::{checked_dimensions, DimensionError};

verus! {

/// The container format the image decoder recognised.
#[derive(Debug, Clone, Copy, PartialEq, Eq, Structural)]
pub enum ImageKind {
    Jpeg,
    Png,
    Gif,
    WebP,
    Bmp,
    Tiff,
    Unknown,
}

/// A decoded image: its format, embedded ICC profile, size, and pixels as
/// packed RGB-8 (`width * height * 3` bytes, row by row).
pub struct DecodedImage {
    pub kind: ImageKind,
    pub icc: Option<Vec<u8>>,
    pub width: u32,
    pub height: u32,
    pub rgb: Vec<u8>,
}

/// What decoding the image file `bytes` yields: format, ICC profile, width,
/// height and RGB-8 pixels; `None` when the file cannot be decoded.
pub uninterp spec fn image_decode(bytes: Seq<u8>) -> Option<(ImageKind, Option<Seq<u8>>, u32, u32, Seq<u8>)>;

/// The plain-value view of a decoded image.
pub open spec fn decoded_view(d: DecodedImage) -> (ImageKind, Option<Seq<u8>>, u32, u32, Seq<u8>) {
    (d.kind, opt_bytes(d.icc), d.width, d.height, d.rgb@)
}

/// Decodes an image file with the `image` crate: the format is guessed from
/// the content (`ImageReader::with_guessed_format`), the decoder's ICC
/// profile is read (a failure to read it counts as no profile), and the
/// image is converted to RGB-8.  Claimed: the result is `image_decode` of
/// the bytes, a function of the bytes alone, and the RGB-8 buffer holds
/// three bytes per pixel (`ImageBuffer::into_raw` of an `RgbImage`); an error from any step gives
/// `Err` with the step's message, and then `image_decode` is `None`.  The
/// claim assumes that no format-detection or decoding hooks are registered
/// with the `image` crate in the process (this crate and its server register
/// none); such hooks could change the outcome.  The error text is not stated.
#[verifier::external_body]
pub fn decode_image(bytes: &[u8]) -> (res: Result<DecodedImage, String>)
    ensures
        res matches Ok(d) ==> image_decode(bytes@) == Some(decoded_view(d)),
        res matches Ok(d) ==> d.rgb@.len() == 3 * d.width * d.height,
        res is Err ==> image_decode(bytes@) is None,
{
    let reader = ImageReader::new(Cursor::new(bytes)).with_guessed_format()
        .map_err(|e| format!("Failed to read image: {e}"))?;
    let kind = match reader.format() {
        Some(F::Jpeg) => Jpeg, Some(F::Png) => Png, Some(F::Gif) => Gif,
        Some(F::WebP) => WebP, Some(F::Bmp) => Bmp, Some(F::Tiff) => Tiff,
        _ => Unknown,
    };
    let mut decoder = reader.into_decoder().map_err(|e| format!("Failed to create decoder: {e}"))?;
    let icc = decoder.icc_profile().unwrap_or(None);
    let rgb = DynamicImage::from_decoder(decoder).map_err(|e| format!("Failed to decode image: {e}"))?.to_rgb8();
    Ok(DecodedImage { kind, icc, width: rgb.width(), height: rgb.height(), rgb: rgb.into_raw() })
}

/// The name under which a format is reported.
pub open spec fn format_name_text(kind: ImageKind) -> Seq<char> {
    match kind {
        ImageKind::Jpeg => seq!['J', 'P', 'E', 'G'],
        ImageKind::Png => seq!['P', 'N', 'G'],
        ImageKind::Gif => seq!['G', 'I', 'F'],
        ImageKind::WebP => seq!['W', 'e', 'b', 'P'],
        ImageKind::Bmp => seq!['B', 'M', 'P'],
        ImageKind::Tiff => seq!['T', 'I', 'F', 'F'],
        ImageKind::Unknown => seq!['U', 'n', 'k', 'n', 'o', 'w', 'n'],
    }
}

/// The name under which a format is reported.
pub fn format_name(kind: ImageKind) -> (s: String)
    ensures
        s@ == format_name_text(kind),
{
    match kind {
        ImageKind::Jpeg => {
            proof {
                reveal_strlit("JPEG");
            }
            "JPEG".to_owned()
        },
        ImageKind::Png => {
            proof {
                reveal_strlit("PNG");
            }
            "PNG".to_owned()
        },
        ImageKind::Gif => {
            proof {
                reveal_strlit("GIF");
            }
            "GIF".to_owned()
        },
        ImageKind::WebP => {
            proof {
                reveal_strlit("WebP");
            }
            "WebP".to_owned()
        },
        ImageKind::Bmp => {
            proof {
                reveal_strlit("BMP");
            }
            "BMP".to_owned()
        },
        ImageKind::Tiff => {
            proof {
                reveal_strlit("TIFF");
            }
            "TIFF".to_owned()
        },
        ImageKind::Unknown => {
            proof {
                reveal_strlit("Unknown");
            }
            "Unknown".to_owned()
        },
    }
}

/// The colour space reported for an image: the description of its ICC
/// profile, or `Untagged` when it has none or the profile has no
/// description.
pub open spec fn color_space_text(icc: Option<Seq<u8>>) -> Seq<char> {
    match icc {
        Some(p) => match profile_description_text(p) {
            Some(t) => t,
            None => seq!['U', 'n', 't', 'a', 'g', 'g', 'e', 'd'],
        },
        None => seq!['U', 'n', 't', 'a', 'g', 'g', 'e', 'd'],
    }
}

/// An uploaded image ready to be stored: pixels not yet converted from the
/// embedded profile's colour space.
pub struct UploadedImage {
    pub width: u16,
    pub height: u16,
    pub rgb: Vec<u8>,
    pub icc: Option<Vec<u8>>,
    pub format: String,
    pub color_space: String,
    pub icc_present: bool,
}

/// Why an upload cannot be stored.
pub enum UploadError {
    /// The decoder's message.
    Decode(String),
    /// The image is larger than the colour extraction accepts.
    Size(DimensionError),
}

/// Decodes uploaded image bytes and records what the service reports about
/// them.  Fails when decoding fails, then when the width, then when the
/// height does not fit 16 bits.
pub fn decode_upload(bytes: &[u8]) -> (res: Result<UploadedImage, UploadError>)
    ensures
        match image_decode(bytes@) {
            None => res matches Err(UploadError::Decode(_)),
            Some((kind, icc, width, height, rgb)) => if width > 0xFFFF {
                res matches Err(UploadError::Size(DimensionError::WidthTooLarge))
            } else if height > 0xFFFF {
                res matches Err(UploadError::Size(DimensionError::HeightTooLarge))
            } else {
                res matches Ok(u) && u.width == width && u.height == height && u.rgb@ == rgb
                    && u.rgb@.len() == 3 * u.width * u.height
                    && opt_bytes(u.icc) == icc && u.format@ == format_name_text(kind)
                    && u.color_space@ == color_space_text(icc) && u.icc_present == (icc is Some)
            },
        },
{
    let d = match decode_image(bytes) {
        Ok(d) => d,
        Err(msg) => return Err(UploadError::Decode(msg)),
    };
    let format: String = format_name(d.kind);
    let description: Option<String> = match &d.icc {
        Some(p) => profile_description(p.as_slice()),
        None => None,
    };
    let color_space: String = match description {
        Some(t) => t,
        None => {
            proof {
                reveal_strlit("Untagged");
            }
            "Untagged".to_owned()
        },
    };
    let icc_present: bool = d.icc.is_some();
    let (width, height) = match checked_dimensions(d.width, d.height) {
        Ok(wh) => wh,
        Err(e) => return Err(UploadError::Size(e)),
    };
    Ok(UploadedImage { width, height, rgb: d.rgb, icc: d.icc, format, color_space, icc_present })
}

} // verus!
