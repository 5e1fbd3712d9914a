//! Laws of JPEG ICC extraction: a profile written as numbered APP2 chunks is
//! read back whole, and the file order of distinctly numbered chunks does not
//! matter.

use vstd::prelude::*;
use crate::bytes::be_u16_value;
use crate::jpeg::{
    assemble, assemble_upto, chunk_table, icc_chunks_from, icc_signature, is_icc_segment,
    jpeg_icc_profile, slot_bytes,
};

verus! {

/// The APP2 segment that carries `payload` as ICC chunk `seq_no` of `total`.
pub open spec fn icc_app2_segment(seq_no: u8, total: u8, payload: Seq<u8>) -> Seq<u8> {
    let len = payload.len() + 16;
    seq![0xFFu8, 0xE2, (len / 256) as u8, (len % 256) as u8] + icc_signature() + seq![
        seq_no,
        total,
    ] + payload
}

/// The chunks `ps[from..]` written as consecutive APP2 segments numbered
/// `from + 1, from + 2, ...`, each declaring `total` chunks.
pub open spec fn icc_app2_segments(ps: Seq<Seq<u8>>, total: u8, from: int) -> Seq<u8>
    decreases ps.len() - from,
{
    if from < 0 || from >= ps.len() {
        seq![]
    } else {
        icc_app2_segment((from + 1) as u8, total, ps[from]) + icc_app2_segments(ps, total, from + 1)
    }
}

/// A JPEG header: SOI followed by the chunks of `ps` in order, numbered from 1.
pub open spec fn jpeg_with_icc_chunks(ps: Seq<Seq<u8>>) -> Seq<u8> {
    seq![0xFFu8, 0xD8] + icc_app2_segments(ps, ps.len() as u8, 0)
}

/// The chunks of `ps`, numbered from 1, as `(sequence number, payload)` pairs.
pub open spec fn numbered_chunks(ps: Seq<Seq<u8>>) -> Seq<(u8, Seq<u8>)> {
    Seq::new(ps.len(), |i: int| (((i + 1) as u8), ps[i]))
}

/// Every chunk fits in one APP2 segment.
pub open spec fn chunks_fit(ps: Seq<Seq<u8>>) -> bool {
    forall|i: int| 0 <= i < ps.len() ==> (#[trigger] ps[i]).len() <= 65519
}

proof fn lemma_segment_step(data: Seq<u8>, pos: int, seq_no: u8, total: u8, payload: Seq<u8>)
    requires
        0 <= pos,
        payload.len() <= 65519,
        pos + icc_app2_segment(seq_no, total, payload).len() <= data.len(),
        data.subrange(pos, pos + icc_app2_segment(seq_no, total, payload).len())
            == icc_app2_segment(seq_no, total, payload),
    ensures
        icc_chunks_from(data, pos) == seq![(seq_no, payload)] + icc_chunks_from(
            data,
            pos + icc_app2_segment(seq_no, total, payload).len(),
        ),
{
    let seg = icc_app2_segment(seq_no, total, payload);
    let len = payload.len() + 16;
    assert(seg.len() == len + 2);
    assert(data[pos] == seg[0]);
    assert(data[pos + 1] == seg[1]);
    assert(data[pos + 2] == seg[2]);
    assert(data[pos + 3] == seg[3]);
    assert(be_u16_value(data[pos + 2], data[pos + 3]) == len);
    let body = data.subrange(pos + 4, pos + 2 + len);
    assert(body =~= seg.subrange(4, seg.len() as int));
    assert(body.take(12) =~= icc_signature());
    assert(is_icc_segment(data[pos + 1], body));
    assert(body[12] == seq_no);
    assert(body.skip(14) =~= payload);
}

proof fn lemma_segments_walk(data: Seq<u8>, base: int, ps: Seq<Seq<u8>>, total: u8, from: int)
    requires
        0 <= base,
        0 <= from <= ps.len(),
        ps.len() <= 255,
        chunks_fit(ps),
        base + icc_app2_segments(ps, total, from).len() <= data.len(),
        data.subrange(base, base + icc_app2_segments(ps, total, from).len())
            == icc_app2_segments(ps, total, from),
    ensures
        icc_chunks_from(data, base) == numbered_chunks(ps).subrange(from, ps.len() as int)
            + icc_chunks_from(data, base + icc_app2_segments(ps, total, from).len()),
    decreases ps.len() - from,
{
    let segs = icc_app2_segments(ps, total, from);
    if from == ps.len() {
        assert(numbered_chunks(ps).subrange(from, ps.len() as int) =~= seq![]);
        assert(segs.len() == 0);
        assert(seq![] + icc_chunks_from(data, base) =~= icc_chunks_from(data, base));
    } else {
        let seg = icc_app2_segment((from + 1) as u8, total, ps[from]);
        let rest = icc_app2_segments(ps, total, from + 1);
        assert(segs == seg + rest);
        assert(data.subrange(base, base + seg.len()) =~= segs.subrange(0, seg.len() as int));
        assert(segs.subrange(0, seg.len() as int) =~= seg);
        lemma_segment_step(data, base, (from + 1) as u8, total, ps[from]);
        assert(data.subrange(base + seg.len(), base + seg.len() + rest.len()) =~= segs.subrange(
            seg.len() as int,
            segs.len() as int,
        ));
        assert(segs.subrange(seg.len() as int, segs.len() as int) =~= rest);
        lemma_segments_walk(data, base + seg.len(), ps, total, from + 1);
        let nc = numbered_chunks(ps);
        assert(nc.subrange(from, ps.len() as int) =~= seq![((from + 1) as u8, ps[from])]
            + nc.subrange(from + 1, ps.len() as int));
        assert(base + seg.len() + rest.len() == base + segs.len());
        assert((seq![((from + 1) as u8, ps[from])] + nc.subrange(from + 1, ps.len() as int))
            + icc_chunks_from(data, base + segs.len()) =~= seq![((from + 1) as u8, ps[from])] + (
        nc.subrange(from + 1, ps.len() as int) + icc_chunks_from(data, base + segs.len())));
    }
}

proof fn lemma_numbered_table(ps: Seq<Seq<u8>>)
    requires
        ps.len() <= 255,
    ensures
        forall|b: u8|
            #![trigger chunk_table(numbered_chunks(ps)).contains_key(b)]
            chunk_table(numbered_chunks(ps)).contains_key(b) <==> (1 <= b && b <= ps.len()),
        forall|b: u8|
            #![trigger chunk_table(numbered_chunks(ps))[b]]
            1 <= b && b <= ps.len() ==> chunk_table(numbered_chunks(ps))[b] == ps[b - 1],
    decreases ps.len(),
{
    let nc = numbered_chunks(ps);
    let t = chunk_table(nc);
    if ps.len() > 0 {
        let prev = ps.drop_last();
        lemma_numbered_table(prev);
        let tp = chunk_table(numbered_chunks(prev));
        let n = ps.len() as int;
        let nb = n as u8;
        assert(nb as int == n);
        assert(nc.drop_last() =~= numbered_chunks(prev));
        assert(nc.last() == (nb, ps.last()));
        assert(t == tp.insert(nb, ps.last()));
        assert forall|b: u8| #[trigger] t.contains_key(b) <==> (1 <= b && b <= ps.len()) by {
            if b != nb {
                assert(tp.contains_key(b) <==> (1 <= b && b <= prev.len()));
            }
        }
        assert forall|b: u8| 1 <= b && b <= ps.len() implies #[trigger] t[b] == ps[b - 1] by {
            if b != nb {
                assert(tp[b] == prev[b - 1]);
            }
        }
    } else {
        assert(t == Map::<u8, Seq<u8>>::empty());
    }
}

proof fn lemma_assemble_numbered(ps: Seq<Seq<u8>>, k: int)
    requires
        ps.len() <= 255,
        1 <= k <= 256,
    ensures
        assemble_upto(chunk_table(numbered_chunks(ps)), k) == if k - 1 <= ps.len() {
            ps.take(k - 1).flatten_alt()
        } else {
            ps.flatten_alt()
        },
    decreases k,
{
    let t = chunk_table(numbered_chunks(ps));
    lemma_numbered_table(ps);
    if k == 1 {
        assert(!t.contains_key(0u8));
        assert(slot_bytes(t, 0) =~= seq![]);
        assert(assemble_upto(t, 0) =~= seq![]);
        assert(ps.take(0) =~= Seq::<Seq<u8>>::empty());
        assert(assemble_upto(t, 1) =~= seq![]);
    } else {
        lemma_assemble_numbered(ps, k - 1);
        let b = (k - 1) as u8;
        assert(b as int == k - 1);
        if k - 1 <= ps.len() {
            assert(t.contains_key(b));
            assert(slot_bytes(t, k - 1) == ps[k - 2]);
            assert(ps.take(k - 1).drop_last() =~= ps.take(k - 2));
        } else {
            assert(!t.contains_key(b));
            assert(slot_bytes(t, k - 1) =~= seq![]);
            if k - 2 == ps.len() {
                assert(ps.take(k - 2) =~= ps);
            }
        }
    }
}

/// A profile split into at most 255 chunks that each fit one APP2 segment,
/// written after SOI as segments numbered 1, 2, ... in order and followed
/// by nothing or by the start-of-scan marker, is extracted as the
/// concatenation of the chunks.
pub proof fn lemma_split_profile_reassembles(ps: Seq<Seq<u8>>, tail: Seq<u8>)
    requires
        1 <= ps.len() <= 255,
        chunks_fit(ps),
        tail.len() == 0 || (tail.len() >= 2 && tail[0] == 0xFF && tail[1] == 0xDA),
    ensures
        jpeg_icc_profile(jpeg_with_icc_chunks(ps) + tail) == Some(ps.flatten()),
{
    let data = jpeg_with_icc_chunks(ps) + tail;
    let segs = icc_app2_segments(ps, ps.len() as u8, 0);
    assert(data.subrange(2, 2 + segs.len() as int) =~= segs);
    lemma_segments_walk(data, 2, ps, ps.len() as u8, 0);
    let end: int = 2 + segs.len() as int;
    assert(icc_chunks_from(data, end) =~= seq![]) by {
        if tail.len() >= 2 {
            assert(data[end] == 0xFF);
            assert(data[end + 1] == 0xDA);
        }
    }
    assert(numbered_chunks(ps).subrange(0, ps.len() as int) =~= numbered_chunks(ps));
    assert(icc_chunks_from(data, 2) =~= numbered_chunks(ps));
    assert(data[0] == 0xFF && data[1] == 0xD8);
    assert(numbered_chunks(ps).len() > 0);
    lemma_assemble_numbered(ps, 256);
    if ps.len() == 255 {
        assert(ps.take(255) =~= ps);
    }
    assert(assemble(chunk_table(numbered_chunks(ps))) == ps.flatten_alt());
    ps.lemma_flatten_and_flatten_alt_are_equivalent();
}

/// No two chunks of the list carry the same sequence number.
pub open spec fn distinct_numbers(chunks: Seq<(u8, Seq<u8>)>) -> bool {
    forall|i: int, j: int|
        0 <= i < j < chunks.len() ==> #[trigger] chunks[i].0 != #[trigger] chunks[j].0
}

proof fn lemma_table_of_distinct(c: Seq<(u8, Seq<u8>)>)
    requires
        distinct_numbers(c),
    ensures
        forall|k: u8|
            #[trigger] chunk_table(c).contains_key(k) <==> exists|i: int|
                0 <= i < c.len() && (#[trigger] c[i]).0 == k,
        forall|i: int| 0 <= i < c.len() ==> chunk_table(c)[(#[trigger] c[i]).0] == c[i].1,
    decreases c.len(),
{
    if c.len() > 0 {
        let p = c.drop_last();
        assert(distinct_numbers(p)) by {
            assert forall|i: int, j: int| 0 <= i < j < p.len() implies #[trigger] p[i].0
                != #[trigger] p[j].0 by {
                assert(p[i] == c[i] && p[j] == c[j]);
            }
        }
        lemma_table_of_distinct(p);
        let t = chunk_table(c);
        let tp = chunk_table(p);
        let last = c.last();
        assert(t == tp.insert(last.0, last.1));
        assert forall|k: u8| #[trigger] t.contains_key(k) <==> exists|i: int|
            0 <= i < c.len() && (#[trigger] c[i]).0 == k by {
            if t.contains_key(k) && k != last.0 {
                let i = choose|i: int| 0 <= i < p.len() && (#[trigger] p[i]).0 == k;
                assert(c[i] == p[i]);
            }
            if k == last.0 {
                assert(c[c.len() - 1].0 == k);
            }
            if exists|i: int| 0 <= i < c.len() && (#[trigger] c[i]).0 == k {
                let i = choose|i: int| 0 <= i < c.len() && (#[trigger] c[i]).0 == k;
                if i < c.len() - 1 {
                    assert(p[i] == c[i]);
                }
            }
        }
        assert forall|i: int| 0 <= i < c.len() implies t[(#[trigger] c[i]).0] == c[i].1 by {
            if i < c.len() - 1 {
                assert(p[i] == c[i]);
                assert(c[i].0 != c[c.len() - 1].0);
            }
        }
    }
}

/// When neither of two chunk lists repeats a sequence number and both hold
/// the same chunks, they build the same table and so the same profile: the
/// file order of distinctly numbered chunks does not matter.
pub proof fn lemma_chunk_order_irrelevant(c1: Seq<(u8, Seq<u8>)>, c2: Seq<(u8, Seq<u8>)>)
    requires
        distinct_numbers(c1),
        distinct_numbers(c2),
        forall|x: (u8, Seq<u8>)| c1.contains(x) <==> c2.contains(x),
    ensures
        chunk_table(c1) == chunk_table(c2),
        assemble(chunk_table(c1)) == assemble(chunk_table(c2)),
{
    lemma_table_of_distinct(c1);
    lemma_table_of_distinct(c2);
    let t1 = chunk_table(c1);
    let t2 = chunk_table(c2);
    assert forall|k: u8| #[trigger] t1.contains_key(k) implies t2.contains_key(k) && t1[k] == t2[k] by {
        let i = choose|i: int| 0 <= i < c1.len() && (#[trigger] c1[i]).0 == k;
        assert(c1.contains(c1[i]));
        let j = choose|j: int| 0 <= j < c2.len() && c2[j] == c1[i];
        assert(c2[j].0 == k);
    }
    assert forall|k: u8| #[trigger] t2.contains_key(k) implies t1.contains_key(k) by {
        let j = choose|j: int| 0 <= j < c2.len() && (#[trigger] c2[j]).0 == k;
        assert(c2.contains(c2[j]));
        let i = choose|i: int| 0 <= i < c1.len() && c1[i] == c2[j];
        assert(c1[i].0 == k);
    }
    assert(t1 =~= t2);
}

/// A marker segment: `0xFF`, the marker, a big-endian length counting
/// itself, and the body.
pub open spec fn jpeg_segment(marker: u8, body: Seq<u8>) -> Seq<u8> {
    let len = body.len() + 2;
    seq![0xFFu8, marker, (len / 256) as u8, (len % 256) as u8] + body
}

/// Marker segments written one after another.
pub open spec fn jpeg_segments(segs: Seq<(u8, Seq<u8>)>) -> Seq<u8>
    decreases segs.len(),
{
    if segs.len() == 0 {
        seq![]
    } else {
        jpeg_segment(segs[0].0, segs[0].1) + jpeg_segments(segs.drop_first())
    }
}

/// A well-formed segment of any marker other than SOS, EOI or a stand-alone
/// marker, which carries no ICC chunk: such as APP0 (JFIF), APP1 (Exif),
/// DQT, SOF or DHT, or an APP2 segment of another kind.
pub open spec fn is_plain_segment(s: (u8, Seq<u8>)) -> bool {
    &&& s.0 != 0xDA
    &&& s.0 != 0xD9
    &&& s.0 != 0x01
    &&& !(0xD0 <= s.0 && s.0 <= 0xD7)
    &&& s.1.len() <= 65533
    &&& !(s.0 == 0xE2 && s.1.len() >= 14 && s.1.take(12) == icc_signature())
}

proof fn lemma_plain_segment_step(data: Seq<u8>, pos: int, marker: u8, body: Seq<u8>)
    requires
        0 <= pos,
        is_plain_segment((marker, body)),
        pos + jpeg_segment(marker, body).len() <= data.len(),
        data.subrange(pos, pos + jpeg_segment(marker, body).len()) == jpeg_segment(marker, body),
    ensures
        icc_chunks_from(data, pos) == icc_chunks_from(data, pos + jpeg_segment(marker, body).len()),
{
    let seg = jpeg_segment(marker, body);
    let len = body.len() + 2;
    assert(seg.len() == len + 2);
    assert(data[pos] == seg[0]);
    assert(data[pos + 1] == seg[1]);
    assert(data[pos + 2] == seg[2]);
    assert(data[pos + 3] == seg[3]);
    assert(be_u16_value(data[pos + 2], data[pos + 3]) == len);
    let b = data.subrange(pos + 4, pos + 2 + len);
    assert(b =~= body) by {
        assert forall|k: int| 0 <= k < body.len() implies b[k] == body[k] by {
            assert(b[k] == seg[4 + k]);
        }
    }
    assert(!is_icc_segment(marker, b));
}

proof fn lemma_plain_segments_walk(data: Seq<u8>, pos: int, segs: Seq<(u8, Seq<u8>)>)
    requires
        0 <= pos,
        forall|i: int| 0 <= i < segs.len() ==> is_plain_segment(#[trigger] segs[i]),
        pos + jpeg_segments(segs).len() <= data.len(),
        data.subrange(pos, pos + jpeg_segments(segs).len()) == jpeg_segments(segs),
    ensures
        icc_chunks_from(data, pos) == icc_chunks_from(data, pos + jpeg_segments(segs).len()),
    decreases segs.len(),
{
    if segs.len() > 0 {
        let first = jpeg_segment(segs[0].0, segs[0].1);
        let rest = jpeg_segments(segs.drop_first());
        let all = jpeg_segments(segs);
        assert(all == first + rest);
        assert(is_plain_segment(segs[0]));
        assert(data.subrange(pos, pos + first.len()) =~= all.subrange(0, first.len() as int));
        assert(all.subrange(0, first.len() as int) =~= first);
        lemma_plain_segment_step(data, pos, segs[0].0, segs[0].1);
        assert(data.subrange(pos + first.len(), pos + first.len() + rest.len()) =~= all.subrange(
            first.len() as int,
            all.len() as int,
        ));
        assert(all.subrange(first.len() as int, all.len() as int) =~= rest);
        assert forall|i: int| 0 <= i < segs.drop_first().len() implies is_plain_segment(
            #[trigger] segs.drop_first()[i],
        ) by {
            assert(segs.drop_first()[i] == segs[i + 1]);
        }
        lemma_plain_segments_walk(data, pos + first.len(), segs.drop_first());
    }
}

/// After SOI, any well-formed segments that carry no ICC chunk and do not
/// end the header (APP0 JFIF, APP1 Exif, quantisation and Huffman tables,
/// ...) are skipped by their length: a profile split into numbered chunks
/// that follow them is still extracted whole.
pub proof fn lemma_plain_segments_skipped(
    others: Seq<(u8, Seq<u8>)>,
    ps: Seq<Seq<u8>>,
    tail: Seq<u8>,
)
    requires
        forall|i: int| 0 <= i < others.len() ==> is_plain_segment(#[trigger] others[i]),
        1 <= ps.len() <= 255,
        chunks_fit(ps),
        tail.len() == 0 || (tail.len() >= 2 && tail[0] == 0xFF && tail[1] == 0xDA),
    ensures
        jpeg_icc_profile(
            seq![0xFFu8, 0xD8] + jpeg_segments(others) + icc_app2_segments(ps, ps.len() as u8, 0)
                + tail,
        ) == Some(ps.flatten()),
{
    let head = jpeg_segments(others);
    let segs = icc_app2_segments(ps, ps.len() as u8, 0);
    let data = seq![0xFFu8, 0xD8] + head + segs + tail;
    assert(data.subrange(2, 2 + head.len() as int) =~= head);
    lemma_plain_segments_walk(data, 2, others);
    let start: int = 2 + head.len() as int;
    assert(data.subrange(start, start + segs.len() as int) =~= segs);
    lemma_segments_walk(data, start, ps, ps.len() as u8, 0);
    let end: int = start + segs.len() as int;
    assert(icc_chunks_from(data, end) =~= seq![]) by {
        if tail.len() >= 2 {
            assert(data[end] == 0xFF);
            assert(data[end + 1] == 0xDA);
        }
    }
    assert(numbered_chunks(ps).subrange(0, ps.len() as int) =~= numbered_chunks(ps));
    assert(icc_chunks_from(data, 2) =~= numbered_chunks(ps));
    assert(data[0] == 0xFF && data[1] == 0xD8);
    assert(numbered_chunks(ps).len() > 0);
    lemma_assemble_numbered(ps, 256);
    if ps.len() == 255 {
        assert(ps.take(255) =~= ps);
    }
    assert(assemble(chunk_table(numbered_chunks(ps))) == ps.flatten_alt());
    ps.lemma_flatten_and_flatten_alt_are_equivalent();
}

/// The segment walk over the bytes `x` does not depend on what precedes them.
proof fn lemma_walk_shift(a: Seq<u8>, b: Seq<u8>, x: Seq<u8>, i: int)
    requires
        0 <= i <= x.len(),
    ensures
        icc_chunks_from(a + x, a.len() + i) == icc_chunks_from(b + x, b.len() + i),
    decreases x.len() - i,
{
    let da = a + x;
    let db = b + x;
    let pa = a.len() + i;
    let pb = b.len() + i;
    if i + 3 < x.len() {
        assert(da[pa] == x[i] && db[pb] == x[i]);
        assert(da[pa + 1] == x[i + 1] && db[pb + 1] == x[i + 1]);
        assert(da[pa + 2] == x[i + 2] && db[pb + 2] == x[i + 2]);
        assert(da[pa + 3] == x[i + 3] && db[pb + 3] == x[i + 3]);
        if x[i] == 0xFF && x[i + 1] != 0xDA && x[i + 1] != 0xD9 {
            if x[i + 1] == 0x01 || (0xD0 <= x[i + 1] && x[i + 1] <= 0xD7) {
                lemma_walk_shift(a, b, x, i + 2);
            } else {
                let len = be_u16_value(x[i + 2], x[i + 3]);
                if len >= 2 && i + 2 + len <= x.len() {
                    assert(da.subrange(pa + 4, pa + 2 + len) =~= x.subrange(i + 4, i + 2 + len));
                    assert(db.subrange(pb + 4, pb + 2 + len) =~= x.subrange(i + 4, i + 2 + len));
                    lemma_walk_shift(a, b, x, i + 2 + len);
                }
            }
        }
    }
}

/// A well-formed segment that carries no ICC chunk and does not end the
/// header, placed right after SOI, leaves the extracted profile unchanged,
/// whatever follows it.
pub proof fn lemma_plain_segment_transparent(marker: u8, body: Seq<u8>, x: Seq<u8>)
    requires
        is_plain_segment((marker, body)),
    ensures
        jpeg_icc_profile(seq![0xFFu8, 0xD8] + jpeg_segment(marker, body) + x) == jpeg_icc_profile(
            seq![0xFFu8, 0xD8] + x,
        ),
{
    let soi = seq![0xFFu8, 0xD8];
    let seg = jpeg_segment(marker, body);
    let with_seg = soi + seg + x;
    assert(with_seg.subrange(2, 2 + seg.len() as int) =~= seg);
    lemma_plain_segment_step(with_seg, 2, marker, body);
    assert(with_seg =~= (soi + seg) + x);
    lemma_walk_shift(soi + seg, soi, x, 0);
    assert(with_seg[0] == 0xFF && with_seg[1] == 0xD8);
    assert((soi + x)[0] == 0xFF && (soi + x)[1] == 0xD8);
}

/// A stand-alone marker (TEM or RST0..RST7) right after SOI leaves the
/// extracted profile unchanged, whatever follows it.
pub proof fn lemma_standalone_marker_transparent(marker: u8, x: Seq<u8>)
    requires
        marker == 0x01 || (0xD0 <= marker && marker <= 0xD7),
    ensures
        jpeg_icc_profile(seq![0xFFu8, 0xD8, 0xFF, marker] + x) == jpeg_icc_profile(
            seq![0xFFu8, 0xD8] + x,
        ),
{
    let with_marker = seq![0xFFu8, 0xD8, 0xFF, marker] + x;
    let plain = seq![0xFFu8, 0xD8] + x;
    if x.len() >= 2 {
        lemma_walk_shift(seq![0xFFu8, 0xD8, 0xFF, marker], seq![0xFFu8, 0xD8], x, 0);
        assert(with_marker[2] == 0xFF && with_marker[3] == marker);
    } else {
        assert(icc_chunks_from(with_marker, 2) =~= seq![]);
        assert(icc_chunks_from(plain, 2) =~= seq![]);
    }
    assert(with_marker[0] == 0xFF && with_marker[1] == 0xD8);
    assert(plain[0] == 0xFF && plain[1] == 0xD8);
}

} // verus!
