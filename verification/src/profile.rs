//! Reading an ICC profile: the tag table and the `XYZ ` primaries.
//!
//! The tag table starts at byte 128 of the profile: a big-endian tag count,
//! then 12-byte entries `[signature(4) | offset(4) | size(4)]`.  XYZ values
//! are s15.16 fixed-point numbers; they are returned here as the raw signed
//! 32-bit integers (the real value is the integer divided by 65536).

use vstd::prelude::*;
use vstd::slice::slice_subrange;
use crate::bytes::{as_signed32, be_u32_at, bytes_at, read_be_i32, read_be_u32};

verus! {

/// The number of entries that the tag table declares.
pub open spec fn tag_count(icc: Seq<u8>) -> int {
    be_u32_at(icc, 128)
}

/// Where tag-table entry `i` starts.
pub open spec fn tag_entry_base(i: int) -> int {
    132 + 12 * i
}

/// Entry `i` is declared by the count and lies wholly inside the profile.
pub open spec fn tag_in_table(icc: Seq<u8>, i: int) -> bool {
    0 <= i < tag_count(icc) && tag_entry_base(i) + 12 <= icc.len()
}

/// The data offset recorded in entry `i`.
pub open spec fn tag_offset(icc: Seq<u8>, i: int) -> int {
    be_u32_at(icc, tag_entry_base(i) + 4)
}

/// The data size recorded in entry `i`.
pub open spec fn tag_size(icc: Seq<u8>, i: int) -> int {
    be_u32_at(icc, tag_entry_base(i) + 8)
}

/// Entry `i` has signature `sig` and its data lies inside the profile.
pub open spec fn tag_matches(icc: Seq<u8>, sig: Seq<u8>, i: int) -> bool {
    &&& tag_in_table(icc, i)
    &&& icc.subrange(tag_entry_base(i), tag_entry_base(i) + 4) == sig
    &&& tag_offset(icc, i) + tag_size(icc, i) <= icc.len()
}

/// Entry `i` is the first entry that matches `sig`.
pub open spec fn is_first_tag_match(icc: Seq<u8>, sig: Seq<u8>, i: int) -> bool {
    tag_matches(icc, sig, i) && forall|j: int| 0 <= j < i ==> !tag_matches(icc, sig, j)
}

/// The data of the first tag-table entry with signature `sig` whose data
/// lies inside the profile; `None` for a profile shorter than the tag-table
/// header or without such an entry.
pub open spec fn tag_data(icc: Seq<u8>, sig: Seq<u8>) -> Option<Seq<u8>> {
    if icc.len() < 132 {
        None
    } else if exists|i: int| is_first_tag_match(icc, sig, i) {
        let i = choose|i: int| is_first_tag_match(icc, sig, i);
        Some(icc.subrange(tag_offset(icc, i), tag_offset(icc, i) + tag_size(icc, i)))
    } else {
        None
    }
}

/// The byte-sequence view of an optional byte slice.
pub open spec fn opt_slice_bytes(o: Option<&[u8]>) -> Option<Seq<u8>> {
    match o {
        Some(s) => Some(s@),
        None => None,
    }
}

proof fn lemma_first_match_unique(icc: Seq<u8>, sig: Seq<u8>, i: int)
    requires
        is_first_tag_match(icc, sig, i),
    ensures
        (choose|k: int| is_first_tag_match(icc, sig, k)) == i,
{
    let k = choose|k: int| is_first_tag_match(icc, sig, k);
    assert(is_first_tag_match(icc, sig, k));
    if k < i {
        assert(!tag_matches(icc, sig, k));
    }
    if i < k {
        assert(!tag_matches(icc, sig, i));
    }
}

/// Finds a tag entry in the ICC tag table and returns its data.
pub fn find_tag<'a>(icc: &'a [u8], sig: &[u8; 4]) -> (res: Option<&'a [u8]>)
    ensures
        opt_slice_bytes(res) == tag_data(icc@, sig@),
{
    if icc.len() < 132 {
        return None;
    }
    let count: usize = read_be_u32(icc, 128) as usize;
    let sig_bytes: &[u8] = sig.as_slice();
    let mut i: usize = 0;
    let mut base: usize = 132;
    while i < count
        invariant
            icc@.len() == icc.len(),
            132 <= icc@.len(),
            count == tag_count(icc@),
            sig_bytes@ == sig@,
            base == tag_entry_base(i as int),
            base <= icc@.len(),
            forall|j: int| 0 <= j < i ==> !tag_matches(icc@, sig@, j),
        ensures
            forall|j: int| 0 <= j < tag_count(icc@) ==> !tag_matches(icc@, sig@, j),
        decreases count - i,
    {
        if icc.len() - base < 12 {
            assert forall|j: int| 0 <= j < tag_count(icc@) implies !tag_matches(icc@, sig@, j) by {
                if j >= i {
                    assert(!tag_in_table(icc@, j));
                }
            }
            break;
        }
        if bytes_at(icc, base, sig_bytes) {
            let offset: usize = read_be_u32(icc, base + 4) as usize;
            let size: usize = read_be_u32(icc, base + 8) as usize;
            if offset <= icc.len() && size <= icc.len() - offset {
                proof {
                    assert(is_first_tag_match(icc@, sig@, i as int));
                    lemma_first_match_unique(icc@, sig@, i as int);
                }
                return Some(slice_subrange(icc, offset, offset + size));
            }
        }
        assert(!tag_matches(icc@, sig@, i as int));
        i = i + 1;
        base = base + 12;
    }
    assert(!exists|k: int| is_first_tag_match(icc@, sig@, k));
    None
}

/// The signed s15.16 fixed-point value stored at `at`, as its raw integer.
pub open spec fn fixed_at(s: Seq<u8>, at: int) -> int {
    as_signed32(be_u32_at(s, at))
}

/// The type signature `XYZ ` that opens an XYZ tag.
pub open spec fn xyz_type() -> Seq<u8> {
    seq![0x58u8, 0x59, 0x5A, 0x20]
}

/// The X, Y, Z values of an `XYZ ` tag body (`XYZ ` + 4 reserved bytes +
/// three s15.16 numbers), as raw fixed-point integers.
pub open spec fn xyz_values(tag: Seq<u8>) -> Option<Seq<int>> {
    if tag.len() >= 20 && tag.take(4) == xyz_type() {
        Some(seq![fixed_at(tag, 8), fixed_at(tag, 12), fixed_at(tag, 16)])
    } else {
        None
    }
}

/// The view of an optional fixed-point triple as integers.
pub open spec fn opt_triple(o: Option<[i32; 3]>) -> Option<Seq<int>> {
    match o {
        Some(v) => Some(triple(v)),
        None => None,
    }
}

/// A fixed-point triple as a sequence of integers.
pub open spec fn triple(v: [i32; 3]) -> Seq<int> {
    seq![v[0] as int, v[1] as int, v[2] as int]
}

/// Parses an `XYZ ` tag body into its three raw s15.16 values.
pub fn parse_xyz(tag_data: &[u8]) -> (res: Option<[i32; 3]>)
    ensures
        opt_triple(res) == xyz_values(tag_data@),
{
    let xyz: [u8; 4] = [0x58u8, 0x59, 0x5A, 0x20];
    assert(xyz@ =~= xyz_type());
    if tag_data.len() < 20 || !bytes_at(tag_data, 0, xyz.as_slice()) {
        assert(tag_data@.len() >= 20 ==> tag_data@.take(4) =~= tag_data@.subrange(0, 4));
        return None;
    }
    assert(tag_data@.take(4) =~= tag_data@.subrange(0, 4));
    let x: i32 = read_be_i32(tag_data, 8);
    let y: i32 = read_be_i32(tag_data, 12);
    let z: i32 = read_be_i32(tag_data, 16);
    let v: [i32; 3] = [x, y, z];
    assert(seq![v[0] as int, v[1] as int, v[2] as int] =~= seq![
        fixed_at(tag_data@, 8),
        fixed_at(tag_data@, 12),
        fixed_at(tag_data@, 16),
    ]);
    Some(v)
}

/// The D50-adapted XYZ colorants of a profile's red, green and blue
/// primaries, each as three raw s15.16 fixed-point integers.
pub struct XyzPrimaries {
    pub red: [i32; 3],
    pub green: [i32; 3],
    pub blue: [i32; 3],
}

/// The profile-file signature `acsp`.
pub open spec fn acsp_signature() -> Seq<u8> {
    seq![0x61u8, 0x63, 0x73, 0x70]
}

/// Whether bytes 36..40 hold the profile-file signature.
pub open spec fn has_profile_signature(icc: Seq<u8>) -> bool {
    icc.len() >= 40 && icc.subrange(36, 40) == acsp_signature()
}

/// The XYZ values of the tag `sig`, when the tag exists and is an XYZ tag.
pub open spec fn tag_xyz(icc: Seq<u8>, sig: Seq<u8>) -> Option<Seq<int>> {
    match tag_data(icc, sig) {
        Some(t) => xyz_values(t),
        None => None,
    }
}

/// The tag signature `rXYZ`.
pub open spec fn red_colorant_tag() -> Seq<u8> {
    seq![0x72u8, 0x58, 0x59, 0x5A]
}

/// The tag signature `gXYZ`.
pub open spec fn green_colorant_tag() -> Seq<u8> {
    seq![0x67u8, 0x58, 0x59, 0x5A]
}

/// The tag signature `bXYZ`.
pub open spec fn blue_colorant_tag() -> Seq<u8> {
    seq![0x62u8, 0x58, 0x59, 0x5A]
}

/// The red, green and blue colorants of a profile: `None` unless the profile
/// carries the `acsp` signature and all three colorant tags are XYZ tags.
pub open spec fn profile_primaries(icc: Seq<u8>) -> Option<(Seq<int>, Seq<int>, Seq<int>)> {
    if !has_profile_signature(icc) {
        None
    } else {
        match (
            tag_xyz(icc, red_colorant_tag()),
            tag_xyz(icc, green_colorant_tag()),
            tag_xyz(icc, blue_colorant_tag()),
        ) {
            (Some(r), Some(g), Some(b)) => Some((r, g, b)),
            _ => None,
        }
    }
}

/// The integer view of optional primaries.
pub open spec fn opt_primaries(o: Option<XyzPrimaries>) -> Option<(Seq<int>, Seq<int>, Seq<int>)> {
    match o {
        Some(p) => Some((triple(p.red), triple(p.green), triple(p.blue))),
        None => None,
    }
}

fn colorant_xyz(icc: &[u8], sig: &[u8; 4]) -> (res: Option<[i32; 3]>)
    ensures
        opt_triple(res) == tag_xyz(icc@, sig@),
{
    match find_tag(icc, sig) {
        Some(t) => parse_xyz(t),
        None => None,
    }
}

/// Reads the red, green and blue colorant tags of an ICC profile after
/// checking the `acsp` signature.
pub fn icc_primaries(icc: &[u8]) -> (res: Option<XyzPrimaries>)
    ensures
        opt_primaries(res) == profile_primaries(icc@),
{
    let acsp: [u8; 4] = [0x61u8, 0x63, 0x73, 0x70];
    assert(acsp@ =~= acsp_signature());
    if icc.len() < 40 || !bytes_at(icc, 36, acsp.as_slice()) {
        return None;
    }
    let red_sig: [u8; 4] = [0x72u8, 0x58, 0x59, 0x5A];
    let green_sig: [u8; 4] = [0x67u8, 0x58, 0x59, 0x5A];
    let blue_sig: [u8; 4] = [0x62u8, 0x58, 0x59, 0x5A];
    assert(red_sig@ =~= red_colorant_tag());
    assert(green_sig@ =~= green_colorant_tag());
    assert(blue_sig@ =~= blue_colorant_tag());
    let red: [i32; 3] = match colorant_xyz(icc, &red_sig) {
        Some(v) => v,
        None => return None,
    };
    let green: [i32; 3] = match colorant_xyz(icc, &green_sig) {
        Some(v) => v,
        None => return None,
    };
    let blue: [i32; 3] = match colorant_xyz(icc, &blue_sig) {
        Some(v) => v,
        None => return None,
    };
    Some(XyzPrimaries { red, green, blue })
}

/// The four signature bytes of tag-table entry `j`.
pub open spec fn entry_signature(icc: Seq<u8>, j: int) -> Seq<u8> {
    icc.subrange(132 + 12 * j, 136 + 12 * j)
}

/// Looking up the full four-byte signature of a tag-table entry returns that
/// entry's data, when the entry lies inside the profile, the table declares
/// it, its data fits, and no earlier entry has the same four bytes (entries
/// that share only some of the bytes do not matter).
pub proof fn lemma_tag_lookup_by_signature(icc: Seq<u8>, i: int)
    requires
        0 <= i < be_u32_at(icc, 128),
        132 + 12 * (i + 1) <= icc.len(),
        be_u32_at(icc, 136 + 12 * i) + be_u32_at(icc, 140 + 12 * i) <= icc.len(),
        forall|j: int| 0 <= j < i ==> #[trigger] entry_signature(icc, j) != entry_signature(icc, i),
    ensures
        tag_data(icc, entry_signature(icc, i)) == Some(
            icc.subrange(
                be_u32_at(icc, 136 + 12 * i),
                be_u32_at(icc, 136 + 12 * i) + be_u32_at(icc, 140 + 12 * i),
            ),
        ),
{
    let sig = entry_signature(icc, i);
    assert(tag_matches(icc, sig, i));
    assert forall|j: int| 0 <= j < i implies !tag_matches(icc, sig, j) by {
        assert(entry_signature(icc, j) != sig);
    }
    assert(is_first_tag_match(icc, sig, i));
    lemma_first_match_unique(icc, sig, i);
}

/// A signature that no entry inside the profile carries, in all four bytes,
/// is not found, whatever entries share some of its bytes.
pub proof fn lemma_tag_lookup_absent(icc: Seq<u8>, sig: Seq<u8>)
    requires
        forall|j: int|
            0 <= j < be_u32_at(icc, 128) && 132 + 12 * (j + 1) <= icc.len() ==> #[trigger] entry_signature(
                icc,
                j,
            ) != sig,
    ensures
        tag_data(icc, sig) == None::<Seq<u8>>,
{
    assert forall|j: int| !is_first_tag_match(icc, sig, j) by {
        if is_first_tag_match(icc, sig, j) {
            assert(entry_signature(icc, j) == sig);
        }
    }
}

} // verus!
