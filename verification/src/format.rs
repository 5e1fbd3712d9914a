//! Image-format detection by magic bytes, and ICC extraction for whichever
//! container the bytes hold.

use vstd::prelude::*;
use crate::bytes::bytes_at;
use crate::jpeg::{extract_jpeg_icc, has_jpeg_soi, jpeg_icc_profile, opt_bytes};
use crate::png::{extract_png_icc, has_png_signature, png_icc_profile, png_signature_bytes};

verus! {

/// The image container recognised from the first bytes of a file.
#[derive(Debug, Clone, Copy, PartialEq, Eq, Structural)]
pub enum DetectedFormat {
    Jpeg,
    Png,
    Other,
}

/// The container that `data` announces: JPEG when it starts with `0xFF 0xD8`,
/// PNG when it starts with the PNG signature, otherwise neither.
pub open spec fn detected_format(data: Seq<u8>) -> DetectedFormat {
    if has_jpeg_soi(data) {
        DetectedFormat::Jpeg
    } else if has_png_signature(data) {
        DetectedFormat::Png
    } else {
        DetectedFormat::Other
    }
}

/// The ICC profile embedded in `data`, for either container.
pub open spec fn embedded_icc_profile(data: Seq<u8>) -> Option<Seq<u8>> {
    match detected_format(data) {
        DetectedFormat::Jpeg => jpeg_icc_profile(data),
        DetectedFormat::Png => png_icc_profile(data),
        DetectedFormat::Other => None,
    }
}

/// Detects the image format from the first few magic bytes.
pub fn detect_format(data: &[u8]) -> (f: DetectedFormat)
    ensures
        f == detected_format(data@),
{
    if data.len() >= 2 && data[0] == 0xFF && data[1] == 0xD8 {
        return DetectedFormat::Jpeg;
    }
    let sig: Vec<u8> = png_signature_bytes();
    if data.len() >= 8 && bytes_at(data, 0, sig.as_slice()) {
        assert(data@.take(8) =~= data@.subrange(0, 8));
        DetectedFormat::Png
    } else {
        assert(data@.len() >= 8 ==> data@.take(8) =~= data@.subrange(0, 8));
        DetectedFormat::Other
    }
}

/// Extracts the ICC profile bytes from whichever format the raw image bytes
/// are; `None` if the image has no embedded profile or is neither JPEG nor
/// PNG.
pub fn extract_icc(data: &[u8]) -> (res: Option<Vec<u8>>)
    ensures
        opt_bytes(res) == embedded_icc_profile(data@),
{
    match detect_format(data) {
        DetectedFormat::Jpeg => extract_jpeg_icc(data),
        DetectedFormat::Png => extract_png_icc(data),
        DetectedFormat::Other => None,
    }
}

/// Every byte sequence that starts with `0xFF 0xD8` is a JPEG, whatever
/// follows; one that starts with the eight PNG signature bytes is a PNG;
/// anything else is neither.  The profile extracted from a JPEG is the
/// JPEG profile, from a PNG the PNG profile.
pub proof fn lemma_format_by_magic_bytes(data: Seq<u8>)
    ensures
        data.len() >= 2 && data[0] == 0xFF && data[1] == 0xD8 ==> detected_format(data)
            == DetectedFormat::Jpeg && embedded_icc_profile(data) == jpeg_icc_profile(data),
        data.len() >= 8 && data[0] == 0x89 && data[1] == 0x50 && data[2] == 0x4E && data[3]
            == 0x47 && data[4] == 0x0D && data[5] == 0x0A && data[6] == 0x1A && data[7] == 0x0A
            ==> detected_format(data) == DetectedFormat::Png && embedded_icc_profile(data)
            == png_icc_profile(data),
        !(data.len() >= 2 && data[0] == 0xFF && data[1] == 0xD8) && !(data.len() >= 8 && data[0]
            == 0x89 && data[1] == 0x50 && data[2] == 0x4E && data[3] == 0x47 && data[4] == 0x0D
            && data[5] == 0x0A && data[6] == 0x1A && data[7] == 0x0A) ==> detected_format(data)
            == DetectedFormat::Other && embedded_icc_profile(data) == None::<Seq<u8>>,
{
    if data.len() >= 8 {
        let sig = seq![0x89u8, 0x50, 0x4E, 0x47, 0x0D, 0x0A, 0x1A, 0x0A];
        if data[0] == 0x89 && data[1] == 0x50 && data[2] == 0x4E && data[3] == 0x47 && data[4]
            == 0x0D && data[5] == 0x0A && data[6] == 0x1A && data[7] == 0x0A {
            assert(data.take(8) =~= sig);
        } else {
            assert(data.take(8) != sig) by {
                if data.take(8) == sig {
                    assert(data.take(8)[0] == data[0]);
                    assert(data.take(8)[1] == data[1]);
                    assert(data.take(8)[2] == data[2]);
                    assert(data.take(8)[3] == data[3]);
                    assert(data.take(8)[4] == data[4]);
                    assert(data.take(8)[5] == data[5]);
                    assert(data.take(8)[6] == data[6]);
                    assert(data.take(8)[7] == data[7]);
                }
            }
        }
    }
}

} // verus!
