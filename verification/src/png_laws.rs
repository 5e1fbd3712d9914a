//! Law of PNG ICC extraction: a profile written as a zlib stream into an
//! `iCCP` chunk, after any chunks that are neither `iCCP` nor `IDAT`, is read
//! back as what inflating that stream gives.

use vstd::prelude::*;
use crate::bytes::be_u32_at;
use crate::png::{
    iccp_profile, iccp_type, idat_type, is_first_zero, png_icc_from, png_icc_profile,
    png_signature, zlib_inflate,
};

verus! {

/// The four big-endian bytes of a 32-bit length.
pub open spec fn be32_bytes(n: nat) -> Seq<u8> {
    seq![
        (n / 16777216) as u8,
        ((n / 65536) % 256) as u8,
        ((n / 256) % 256) as u8,
        (n % 256) as u8,
    ]
}

/// A PNG chunk: length, type, body, and a CRC (which extraction does not read).
pub open spec fn png_chunk_bytes(ty: Seq<u8>, body: Seq<u8>, crc: Seq<u8>) -> Seq<u8> {
    be32_bytes(body.len()) + ty + body + crc
}

/// Chunks `(type, body, crc)` written one after another.
pub open spec fn png_chunks_bytes(chunks: Seq<(Seq<u8>, Seq<u8>, Seq<u8>)>) -> Seq<u8>
    decreases chunks.len(),
{
    if chunks.len() == 0 {
        seq![]
    } else {
        png_chunk_bytes(chunks[0].0, chunks[0].1, chunks[0].2) + png_chunks_bytes(
            chunks.drop_first(),
        )
    }
}

/// The body of an `iCCP` chunk: profile name, NUL, compression method, and
/// the compressed profile.
pub open spec fn iccp_chunk_body(name: Seq<u8>, method: u8, compressed: Seq<u8>) -> Seq<u8> {
    name + seq![0u8, method] + compressed
}

/// A well-formed chunk whose type is neither `iCCP` nor `IDAT`.
pub open spec fn is_other_chunk(c: (Seq<u8>, Seq<u8>, Seq<u8>)) -> bool {
    &&& c.0.len() == 4
    &&& c.0 != iccp_type()
    &&& c.0 != idat_type()
    &&& c.1.len() < 0x1_0000_0000
    &&& c.2.len() == 4
}

proof fn lemma_be32_roundtrip(n: nat)
    requires
        n < 0x1_0000_0000,
    ensures
        be32_bytes(n).len() == 4,
        be_u32_at(be32_bytes(n), 0) == n,
{
    let b = be32_bytes(n);
    assert(n / 16777216 < 256);
    assert(b[0] as int == n / 16777216);
    assert(b[1] as int == (n / 65536) % 256);
    assert(b[2] as int == (n / 256) % 256);
    assert(b[3] as int == n % 256);
    assert((n / 16777216) * 16777216 + ((n / 65536) % 256) * 65536 + ((n / 256) % 256) * 256 + n
        % 256 == n) by (nonlinear_arith)
        requires
            n < 0x1_0000_0000,
    ;
}

proof fn lemma_chunk_layout(data: Seq<u8>, pos: int, ty: Seq<u8>, body: Seq<u8>, crc: Seq<u8>)
    requires
        0 <= pos,
        ty.len() == 4,
        crc.len() == 4,
        body.len() < 0x1_0000_0000,
        pos + png_chunk_bytes(ty, body, crc).len() <= data.len(),
        data.subrange(pos, pos + png_chunk_bytes(ty, body, crc).len()) == png_chunk_bytes(
            ty,
            body,
            crc,
        ),
    ensures
        png_chunk_bytes(ty, body, crc).len() == 12 + body.len(),
        pos + 12 <= data.len(),
        be_u32_at(data, pos) == body.len(),
        data.subrange(pos + 4, pos + 8) == ty,
        data.subrange(pos + 8, pos + 8 + body.len()) == body,
{
    let c = png_chunk_bytes(ty, body, crc);
    lemma_be32_roundtrip(body.len());
    let len_bytes = be32_bytes(body.len());
    assert(c.len() == 12 + body.len());
    assert forall|k: int| 0 <= k < 4 implies data[pos + k] == len_bytes[k] by {
        assert(data[pos + k] == c[k]);
    }
    assert(data.subrange(pos + 4, pos + 8) =~= ty) by {
        assert forall|k: int| 0 <= k < 4 implies data[pos + 4 + k] == ty[k] by {
            assert(data[pos + 4 + k] == c[4 + k]);
        }
    }
    assert(data.subrange(pos + 8, pos + 8 + body.len()) =~= body) by {
        assert forall|k: int| 0 <= k < body.len() implies data[pos + 8 + k] == body[k] by {
            assert(data[pos + 8 + k] == c[8 + k]);
        }
    }
}

proof fn lemma_skip_other_chunks(data: Seq<u8>, pos: int, chunks: Seq<(Seq<u8>, Seq<u8>, Seq<u8>)>)
    requires
        0 <= pos,
        forall|i: int| 0 <= i < chunks.len() ==> is_other_chunk(#[trigger] chunks[i]),
        pos + png_chunks_bytes(chunks).len() + 12 <= data.len(),
        data.subrange(pos, pos + png_chunks_bytes(chunks).len()) == png_chunks_bytes(chunks),
    ensures
        png_icc_from(data, pos) == png_icc_from(data, pos + png_chunks_bytes(chunks).len()),
    decreases chunks.len(),
{
    if chunks.len() > 0 {
        let c = chunks[0];
        assert(is_other_chunk(c));
        let first = png_chunk_bytes(c.0, c.1, c.2);
        let rest = png_chunks_bytes(chunks.drop_first());
        let all = png_chunks_bytes(chunks);
        assert(all == first + rest);
        assert(data.subrange(pos, pos + first.len()) =~= all.subrange(0, first.len() as int));
        assert(all.subrange(0, first.len() as int) =~= first);
        lemma_chunk_layout(data, pos, c.0, c.1, c.2);
        assert(data.subrange(pos + first.len(), pos + first.len() + rest.len()) =~= all.subrange(
            first.len() as int,
            all.len() as int,
        ));
        assert(all.subrange(first.len() as int, all.len() as int) =~= rest);
        assert forall|i: int| 0 <= i < chunks.drop_first().len() implies is_other_chunk(
            #[trigger] chunks.drop_first()[i],
        ) by {
            assert(chunks.drop_first()[i] == chunks[i + 1]);
        }
        lemma_skip_other_chunks(data, pos + first.len(), chunks.drop_first());
    }
}

/// A PNG whose chunks before the `iCCP` chunk are neither `iCCP` nor `IDAT`
/// yields what inflating the `iCCP` chunk's compressed stream gives, when
/// the profile name holds no NUL byte; whatever follows the chunk is not
/// read.
pub proof fn lemma_iccp_profile_read_back(
    before: Seq<(Seq<u8>, Seq<u8>, Seq<u8>)>,
    name: Seq<u8>,
    method: u8,
    compressed: Seq<u8>,
    crc: Seq<u8>,
    rest: Seq<u8>,
)
    requires
        forall|i: int| 0 <= i < before.len() ==> is_other_chunk(#[trigger] before[i]),
        forall|i: int| 0 <= i < name.len() ==> name[i] != 0,
        crc.len() == 4,
        iccp_chunk_body(name, method, compressed).len() < 0x1_0000_0000,
    ensures
        png_icc_profile(
            png_signature() + png_chunks_bytes(before) + png_chunk_bytes(
                iccp_type(),
                iccp_chunk_body(name, method, compressed),
                crc,
            ) + rest,
        ) == zlib_inflate(compressed),
{
    let body = iccp_chunk_body(name, method, compressed);
    let others = png_chunks_bytes(before);
    let chunk = png_chunk_bytes(iccp_type(), body, crc);
    let data = png_signature() + others + chunk + rest;
    assert(chunk.len() == 12 + body.len());
    assert(data.take(8) =~= png_signature());
    assert(data.subrange(8, 8 + others.len() as int) =~= others);
    lemma_skip_other_chunks(data, 8, before);
    let pos: int = 8 + others.len() as int;
    assert(data.subrange(pos, pos + chunk.len() as int) =~= chunk);
    lemma_chunk_layout(data, pos, iccp_type(), body, crc);
    assert(is_first_zero(body, name.len() as int));
    let z = choose|i: int| is_first_zero(body, i);
    assert(z == name.len()) by {
        if z < name.len() {
            assert(body[z] == name[z]);
        }
        if z > name.len() {
            assert(body[name.len() as int] == 0);
        }
    }
    assert(body.skip(z + 2) =~= compressed);
    assert(iccp_profile(body) == zlib_inflate(compressed));
}

} // verus!
