//! ICC profile extraction from the `iCCP` chunk of a PNG stream.
//!
//! The `iCCP` chunk holds a NUL-terminated profile name, a one-byte
//! compression method and the zlib-compressed profile.  Only chunks before
//! the first `IDAT` are examined.

use std::io::Read;
use vstd::prelude::*;
use vstd::slice::slice_subrange;
use crate::bytes::{be_u32_at, bytes_at, read_be_u32};
use crate::jpeg::opt_bytes;

verus! {

/// What zlib decompression (RFC 1950) of `compressed` yields: the
/// decompressed bytes, or `None` when the stream is malformed.
pub uninterp spec fn zlib_inflate(compressed: Seq<u8>) -> Option<Seq<u8>>;

/// Decompresses a zlib stream with `flate2::read::ZlibDecoder`, reading it
/// to the end.  Claimed: the result is `zlib_inflate` of the input, a
/// function of the input bytes alone; an error from the decoder gives `None`.
#[verifier::external_body]
fn zlib_decompress(compressed: &[u8]) -> (res: Option<Vec<u8>>)
    ensures
        opt_bytes(res) == zlib_inflate(compressed@),
{
    let mut decoder = flate2::read::ZlibDecoder::new(compressed);
    let mut out: Vec<u8> = Vec::new();
    match decoder.read_to_end(&mut out) {
        Ok(_) => Some(out),
        Err(_) => None,
    }
}

/// The eight-byte PNG file signature.
pub open spec fn png_signature() -> Seq<u8> {
    seq![0x89u8, 0x50, 0x4E, 0x47, 0x0D, 0x0A, 0x1A, 0x0A]
}

/// The chunk type `iCCP`.
pub open spec fn iccp_type() -> Seq<u8> {
    seq![0x69u8, 0x43, 0x43, 0x50]
}

/// The chunk type `IDAT`.
pub open spec fn idat_type() -> Seq<u8> {
    seq![0x49u8, 0x44, 0x41, 0x54]
}

/// Whether `data` begins with the PNG signature.
pub open spec fn has_png_signature(data: Seq<u8>) -> bool {
    data.len() >= 8 && data.take(8) == png_signature()
}

/// `i` is the position of the first zero byte of `s`.
pub open spec fn is_first_zero(s: Seq<u8>, i: int) -> bool {
    0 <= i < s.len() && s[i] == 0 && forall|j: int| 0 <= j < i ==> s[j] != 0
}

/// The profile held by the body of an `iCCP` chunk: the name ends at the
/// first zero byte, one compression-method byte follows, and the rest is
/// the zlib stream.
pub open spec fn iccp_profile(body: Seq<u8>) -> Option<Seq<u8>> {
    if exists|i: int| is_first_zero(body, i) {
        let z = choose|i: int| is_first_zero(body, i);
        if z + 2 <= body.len() {
            zlib_inflate(body.skip(z + 2))
        } else {
            None
        }
    } else {
        None
    }
}

/// The profile found by walking the chunks that start at `pos`: the first
/// `iCCP` chunk decides, an `IDAT` chunk or the end of the data ends the
/// search.  Each chunk is a 4-byte length, a 4-byte type, the body and a
/// 4-byte CRC.
pub open spec fn png_icc_from(data: Seq<u8>, pos: int) -> Option<Seq<u8>>
    decreases data.len() - pos,
{
    if pos < 0 || pos + 12 > data.len() {
        None
    } else {
        let len = be_u32_at(data, pos);
        let ty = data.subrange(pos + 4, pos + 8);
        if ty == iccp_type() {
            if pos + 8 + len <= data.len() {
                iccp_profile(data.subrange(pos + 8, pos + 8 + len))
            } else {
                None
            }
        } else if ty == idat_type() || pos + 12 + len > data.len() {
            None
        } else {
            png_icc_from(data, pos + 12 + len)
        }
    }
}

/// The ICC profile embedded in a PNG stream.
pub open spec fn png_icc_profile(data: Seq<u8>) -> Option<Seq<u8>> {
    if has_png_signature(data) {
        png_icc_from(data, 8)
    } else {
        None
    }
}

pub(crate) fn png_signature_bytes() -> (v: Vec<u8>)
    ensures
        v@ == png_signature(),
{
    let v: Vec<u8> = vec![0x89u8, 0x50, 0x4E, 0x47, 0x0D, 0x0A, 0x1A, 0x0A];
    assert(v@ =~= png_signature());
    v
}

/// The profile held by the body of an `iCCP` chunk.
fn iccp_body_profile(body: &[u8]) -> (res: Option<Vec<u8>>)
    ensures
        opt_bytes(res) == iccp_profile(body@),
{
    let mut z: usize = 0;
    while z < body.len()
        invariant
            z <= body@.len(),
            forall|j: int| 0 <= j < z ==> body@[j] != 0,
        ensures
            z <= body@.len(),
            forall|j: int| 0 <= j < z ==> body@[j] != 0,
            z < body@.len() ==> body@[z as int] == 0,
        decreases body@.len() - z,
    {
        if body[z] == 0 {
            break;
        }
        z = z + 1;
    }
    if z == body.len() {
        assert(!exists|i: int| is_first_zero(body@, i));
        return None;
    }
    assert(is_first_zero(body@, z as int));
    assert(body@[z as int] == 0);
    let ghost c = choose|i: int| is_first_zero(body@, i);
    assert(c == z as int) by {
        if c < z {
            assert(body@[c] != 0);
        }
        if z < c {
            assert(body@[z as int] != 0);
        }
    }
    if body.len() - z < 2 {
        return None;
    }
    let compressed: &[u8] = slice_subrange(body, z + 2, body.len());
    assert(compressed@ =~= body@.skip(z + 2));
    zlib_decompress(compressed)
}

/// Extracts the ICC profile from the `iCCP` chunk of a PNG stream,
/// decompressing it.
pub fn extract_png_icc(data: &[u8]) -> (res: Option<Vec<u8>>)
    ensures
        opt_bytes(res) == png_icc_profile(data@),
{
    let sig: Vec<u8> = png_signature_bytes();
    if data.len() < 8 || !bytes_at(data, 0, sig.as_slice()) {
        assert(data@.len() >= 8 ==> data@.take(8) =~= data@.subrange(0, 8));
        return None;
    }
    assert(data@.take(8) =~= data@.subrange(0, 8));
    let iccp: Vec<u8> = vec![0x69u8, 0x43, 0x43, 0x50];
    let idat: Vec<u8> = vec![0x49u8, 0x44, 0x41, 0x54];
    assert(iccp@ =~= iccp_type());
    assert(idat@ =~= idat_type());
    let mut pos: usize = 8;
    while pos <= data.len() && data.len() - pos >= 12
        invariant
            8 <= pos,
            data@.len() == data.len(),
            iccp@ == iccp_type(),
            idat@ == idat_type(),
            png_icc_profile(data@) == png_icc_from(data@, pos as int),
        decreases data@.len() - pos,
    {
        let chunk_len: usize = read_be_u32(data, pos) as usize;
        if bytes_at(data, pos + 4, iccp.as_slice()) {
            if chunk_len > data.len() - pos - 8 {
                return None;
            }
            let body: &[u8] = slice_subrange(data, pos + 8, pos + 8 + chunk_len);
            return iccp_body_profile(body);
        }
        // `IDAT` marks the start of image data: no more metadata follows.
        if bytes_at(data, pos + 4, idat.as_slice()) {
            return None;
        }
        if chunk_len > data.len() - pos - 12 {
            return None;
        }
        pos = pos + 12 + chunk_len;
    }
    None
}

} // verus!
