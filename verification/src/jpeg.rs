//! ICC profile extraction from the APP2 marker segments of a JPEG stream.
//!
//! A JPEG file may split its ICC profile across several APP2 (`0xFF 0xE2`)
//! segments; each segment body starts with `"ICC_PROFILE\0"`, a one-byte
//! sequence number and a one-byte chunk count.  The profile is the
//! concatenation of the chunk payloads in increasing sequence-number order;
//! when a sequence number occurs more than once, the chunk seen last wins.

use vstd::prelude::*;
use vstd::slice::slice_subrange;
use vstd::slice::slice_to_vec;
use std::collections::BTreeMap;
use vstd::std_specs::iter::IteratorSpec;
use crate::bytes::{be_u16_value, bytes_at, push_all, read_be_u16};
use crate::key_order::{lemma_byte_keys_ordered, lemma_byte_map_entries};

verus! {

/// `"ICC_PROFILE\0"`, the tag that opens the body of an ICC-carrying APP2 segment.
pub open spec fn icc_signature() -> Seq<u8> {
    seq![0x49u8, 0x43, 0x43, 0x5F, 0x50, 0x52, 0x4F, 0x46, 0x49, 0x4C, 0x45, 0x00]
}

/// Markers that stand alone, without a length field: TEM and RST0..RST7.
pub open spec fn is_standalone_marker(m: u8) -> bool {
    m == 0x01 || (0xD0 <= m && m <= 0xD7)
}

/// Whether a segment with this marker and body carries an ICC chunk.
pub open spec fn is_icc_segment(marker: u8, body: Seq<u8>) -> bool {
    &&& marker == 0xE2
    &&& body.len() >= 14
    &&& body.take(12) == icc_signature()
}

/// The ICC chunks `(sequence number, payload)` carried by the marker segments
/// that start at `pos`, in file order.  The walk stops at the first byte that
/// is not `0xFF`, at SOS or EOI, at a segment whose length field is below 2 or
/// runs past the end of the data, and when fewer than four bytes remain.
pub open spec fn icc_chunks_from(data: Seq<u8>, pos: int) -> Seq<(u8, Seq<u8>)>
    decreases data.len() - pos,
{
    if pos < 0 || pos + 3 >= data.len() || data[pos] != 0xFF {
        seq![]
    } else {
        let marker = data[pos + 1];
        if marker == 0xDA || marker == 0xD9 {
            seq![]
        } else if is_standalone_marker(marker) {
            icc_chunks_from(data, pos + 2)
        } else {
            let seg_len = be_u16_value(data[pos + 2], data[pos + 3]);
            if seg_len < 2 || pos + 2 + seg_len > data.len() {
                seq![]
            } else {
                let body = data.subrange(pos + 4, pos + 2 + seg_len);
                let rest = icc_chunks_from(data, pos + 2 + seg_len);
                if is_icc_segment(marker, body) {
                    seq![(body[12], body.skip(14))] + rest
                } else {
                    rest
                }
            }
        }
    }
}

/// The table from sequence number to payload that a list of chunks builds
/// when later chunks replace earlier ones with the same sequence number.
pub open spec fn chunk_table(chunks: Seq<(u8, Seq<u8>)>) -> Map<u8, Seq<u8>>
    decreases chunks.len(),
{
    if chunks.len() == 0 {
        Map::empty()
    } else {
        chunk_table(chunks.drop_last()).insert(chunks.last().0, chunks.last().1)
    }
}

/// The payload stored under sequence number `k`, or nothing.
pub open spec fn slot_bytes(table: Map<u8, Seq<u8>>, k: int) -> Seq<u8> {
    if table.contains_key(k as u8) {
        table[k as u8]
    } else {
        seq![]
    }
}

/// The payloads of sequence numbers `0 .. k` concatenated in increasing order.
pub open spec fn assemble_upto(table: Map<u8, Seq<u8>>, k: int) -> Seq<u8>
    decreases k,
{
    if k <= 0 {
        seq![]
    } else {
        assemble_upto(table, k - 1) + slot_bytes(table, k - 1)
    }
}

/// All payloads of the table, concatenated in increasing sequence-number order.
pub open spec fn assemble(table: Map<u8, Seq<u8>>) -> Seq<u8> {
    assemble_upto(table, 256)
}

/// Whether `data` begins with the JPEG start-of-image marker `0xFF 0xD8`.
pub open spec fn has_jpeg_soi(data: Seq<u8>) -> bool {
    data.len() >= 2 && data[0] == 0xFF && data[1] == 0xD8
}

/// The ICC profile embedded in a JPEG stream: `None` when the stream does not
/// start with SOI or carries no ICC chunk before the first stop of the
/// segment walk.
pub open spec fn jpeg_icc_profile(data: Seq<u8>) -> Option<Seq<u8>> {
    if !has_jpeg_soi(data) {
        None
    } else {
        let chunks = icc_chunks_from(data, 2);
        if chunks.len() == 0 {
            None
        } else {
            Some(assemble(chunk_table(chunks)))
        }
    }
}

/// The byte-sequence view of an optional byte vector.
pub open spec fn opt_bytes(o: Option<Vec<u8>>) -> Option<Seq<u8>> {
    match o {
        Some(v) => Some(v@),
        None => None,
    }
}

/// The payloads of the first `n` pairs, concatenated in order.
spec fn payloads_upto(ps: Seq<(u8, Seq<u8>)>, n: int) -> Seq<u8>
    decreases n,
{
    if n <= 0 {
        seq![]
    } else {
        payloads_upto(ps, n - 1) + ps[n - 1].1
    }
}

/// Pairs with strictly increasing keys that list exactly the entries of `table`.
spec fn lists_table_in_order(table: Map<u8, Seq<u8>>, ps: Seq<(u8, Seq<u8>)>) -> bool {
    &&& forall|i: int, j: int| 0 <= i < j < ps.len() ==> #[trigger] ps[i].0 < #[trigger] ps[j].0
    &&& forall|i: int|
        0 <= i < ps.len() ==> table.contains_key((#[trigger] ps[i]).0) && table[ps[i].0]
            == ps[i].1
    &&& forall|k: u8| #[trigger]
        table.contains_key(k) ==> exists|i: int| 0 <= i < ps.len() && (#[trigger] ps[i]).0 == k
}

proof fn lemma_assemble_prefix(table: Map<u8, Seq<u8>>, ps: Seq<(u8, Seq<u8>)>, k: int, j: int)
    requires
        lists_table_in_order(table, ps),
        0 <= k <= 256,
        0 <= j <= ps.len(),
        j == ps.len() || ps[j].0 >= k,
        j == 0 || ps[j - 1].0 < k,
    ensures
        assemble_upto(table, k) == payloads_upto(ps, j),
    decreases k,
{
    if k == 0 {
        assert(j == 0);
    } else {
        let b = (k - 1) as u8;
        assert(b as int == k - 1);
        if j > 0 && ps[j - 1].0 == k - 1 {
            if j > 1 {
                assert(ps[j - 2].0 < ps[j - 1].0);
            }
            lemma_assemble_prefix(table, ps, k - 1, j - 1);
            assert(ps[j - 1].0 == b);
            assert(table.contains_key(ps[j - 1].0));
            assert(slot_bytes(table, k - 1) == ps[j - 1].1);
        } else {
            lemma_assemble_prefix(table, ps, k - 1, j);
            assert(!table.contains_key(b)) by {
                if table.contains_key(b) {
                    let i = choose|i: int| 0 <= i < ps.len() && (#[trigger] ps[i]).0 == b;
                    if i < j - 1 {
                        assert(ps[i].0 < ps[j - 1].0);
                    } else if i > j {
                        assert(ps[j].0 < ps[i].0);
                    }
                }
            }
        }
    }
}

/// Concatenating the payloads of a table's entries listed in increasing key
/// order gives the table's assembly.
proof fn lemma_sorted_pairs_assemble(table: Map<u8, Seq<u8>>, ps: Seq<(u8, Seq<u8>)>)
    requires
        lists_table_in_order(table, ps),
    ensures
        assemble(table) == payloads_upto(ps, ps.len() as int),
{
    if ps.len() > 0 {
        assert(ps[ps.len() - 1].0 < 256);
    }
    lemma_assemble_prefix(table, ps, 256, ps.len() as int);
}

/// The byte-sequence view of a map of byte vectors.
spec fn table_view(m: Map<u8, Vec<u8>>) -> Map<u8, Seq<u8>> {
    Map::new(|k: u8| m.contains_key(k), |k: u8| m[k]@)
}

/// The entries yielded by a map iterator, as plain values.
spec fn entry_pairs(s: Seq<(&u8, &Vec<u8>)>) -> Seq<(u8, Seq<u8>)> {
    Seq::new(s.len(), |i: int| (*s[i].0, s[i].1@))
}

fn icc_signature_bytes() -> (v: Vec<u8>)
    ensures
        v@ == icc_signature(),
{
    let v: Vec<u8> = vec![0x49u8, 0x43, 0x43, 0x5F, 0x50, 0x52, 0x4F, 0x46, 0x49, 0x4C, 0x45, 0x00];
    assert(v@ =~= icc_signature());
    v
}

/// Extracts the concatenated ICC profile bytes from the APP2 segments of a
/// JPEG stream, ordered by sequence number.
pub fn extract_jpeg_icc(data: &[u8]) -> (res: Option<Vec<u8>>)
    ensures
        opt_bytes(res) == jpeg_icc_profile(data@),
{
    if data.len() < 2 || data[0] != 0xFF || data[1] != 0xD8 {
        return None;
    }
    let sig: Vec<u8> = icc_signature_bytes();
    // Keyed by the 1-based sequence number; iteration yields keys in order.
    let mut chunks: BTreeMap<u8, Vec<u8>> = BTreeMap::new();
    let ghost mut found: Seq<(u8, Seq<u8>)> = seq![];
    proof {
        lemma_byte_keys_ordered();
        assert(table_view(chunks@) =~= chunk_table(found));
    }
    let mut pos: usize = 2;
    while data.len() - pos > 3
        invariant
            2 <= pos <= data@.len(),
            data@.len() == data.len(),
            sig@ == icc_signature(),
            icc_chunks_from(data@, 2) == found + icc_chunks_from(data@, pos as int),
            table_view(chunks@) == chunk_table(found),
        ensures
            icc_chunks_from(data@, 2) == found + icc_chunks_from(data@, pos as int),
            icc_chunks_from(data@, pos as int) == Seq::<(u8, Seq<u8>)>::empty(),
            table_view(chunks@) == chunk_table(found),
        decreases data@.len() - pos,
    {
        if data[pos] != 0xFF {
            break;
        }
        let marker: u8 = data[pos + 1];
        // SOS / EOI: no more headers follow.
        if marker == 0xDA || marker == 0xD9 {
            break;
        }
        // Stand-alone markers carry no length field.
        if marker == 0x01 || (0xD0 <= marker && marker <= 0xD7) {
            pos = pos + 2;
            continue;
        }
        if pos + 4 > data.len() {
            break;
        }
        let seg_len: usize = read_be_u16(data, pos + 2) as usize;
        if seg_len < 2 || seg_len > data.len() - pos - 2 {
            break;
        }
        let seg_end: usize = pos + 2 + seg_len;
        let ghost body = data@.subrange(pos + 4, seg_end as int);
        let ghost rest = icc_chunks_from(data@, seg_end as int);
        // APP2 with the ICC signature?
        if marker == 0xE2 && seg_len - 2 >= 14 && bytes_at(data, pos + 4, sig.as_slice()) {
            assert(body.take(12) =~= data@.subrange(pos + 4, pos + 16));
            let seq_no: u8 = data[pos + 16];
            let payload: Vec<u8> = slice_to_vec(slice_subrange(data, pos + 18, seg_end));
            assert(payload@ =~= body.skip(14));
            let ghost chunk = (seq_no, payload@);
            assert(icc_chunks_from(data@, pos as int) == seq![chunk] + rest);
            let ghost prev = found;
            let ghost before = chunks@;
            proof {
                lemma_byte_keys_ordered();
                assert(found + (seq![chunk] + rest) =~= found.push(chunk) + rest);
                found = found.push(chunk);
                assert(found.drop_last() =~= prev);
            }
            chunks.insert(seq_no, payload);
            assert(table_view(chunks@) =~= table_view(before).insert(seq_no, chunk.1));
        } else {
            assert(!is_icc_segment(marker, body)) by {
                if marker == 0xE2 && seg_len - 2 >= 14 {
                    assert(body.take(12) =~= data@.subrange(pos + 4, pos + 16));
                }
            }
            assert(icc_chunks_from(data@, pos as int) == rest);
        }
        pos = seg_end;
    }
    assert(found + Seq::<(u8, Seq<u8>)>::empty() =~= found);
    let ghost table = chunk_table(found);
    assert(found.len() > 0 ==> table.contains_key(found.last().0));
    if chunks.is_empty() {
        assert(!chunks@.contains_key(found.last().0) || found.len() == 0);
        return None;
    }
    assert(found.len() > 0) by {
        if found.len() == 0 {
            assert(chunks@.dom() =~= Set::<u8>::empty());
        }
    }
    let iter = chunks.iter();
    let ghost entries = iter.remaining();
    proof {
        lemma_byte_keys_ordered();
        lemma_byte_map_entries(&chunks, entries);
        let ps = entry_pairs(entries);
        assert(lists_table_in_order(table, ps)) by {
            assert forall|k: u8| #[trigger] table.contains_key(k) implies exists|i: int|
                0 <= i < ps.len() && (#[trigger] ps[i]).0 == k by {
                assert(chunks@.contains_key(k));
                let i = choose|i: int| 0 <= i < entries.len() && *entries[i].0 == k;
                assert(ps[i].0 == k);
            }
        }
        lemma_sorted_pairs_assemble(table, ps);
    }
    let mut result: Vec<u8> = Vec::new();
    for (_, payload) in it: iter
        invariant
            it.seq() == entries,
            result@ == payloads_upto(entry_pairs(entries), it.index()),
    {
        push_all(&mut result, payload.as_slice());
    }
    Some(result)
}

} // verus!
