//! The human-readable description of an ICC profile, from its `desc` tag.
//!
//! Version 2 profiles store it as a `textDescriptionType` (`desc`: a
//! big-endian byte count, then ASCII text ended by NUL); version 4 profiles
//! as a `multiLocalizedUnicodeType` (`mluc`: a table of records, each naming
//! a UTF-16BE string).  The first record of an `mluc` tag is used.

use vstd::prelude::*;
use crate::bytes::{be_u16_value, be_u32_at, bytes_at, read_be_u16, read_be_u32};
use crate::png::is_first_zero;
use crate::profile::{find_tag, tag_data};
use crate::text::{char_from_u32, is_scalar_value, push_char};

verus! {

/// The tag signature, and type signature, `desc`.
pub open spec fn desc_signature() -> Seq<u8> {
    seq![0x64u8, 0x65, 0x73, 0x63]
}

/// The type signature `mluc`.
pub open spec fn mluc_signature() -> Seq<u8> {
    seq![0x6Du8, 0x6C, 0x75, 0x63]
}

/// The bytes of `s` before its first zero byte (all of `s` when it has none).
pub open spec fn before_nul(s: Seq<u8>) -> Seq<u8> {
    if exists|i: int| is_first_zero(s, i) {
        s.take(choose|i: int| is_first_zero(s, i))
    } else {
        s
    }
}

/// Bytes read as characters of the same value (ASCII, extended as Latin-1).
pub open spec fn byte_chars(s: Seq<u8>) -> Seq<char> {
    Seq::new(s.len(), |i: int| (s[i] as int) as char)
}

/// The text of a `textDescriptionType` tag body.
pub open spec fn text_description(tag: Seq<u8>) -> Option<Seq<char>> {
    if tag.len() >= 12 && tag.take(4) == desc_signature() && 12 + be_u32_at(tag, 8) <= tag.len() {
        Some(byte_chars(before_nul(tag.subrange(12, 12 + be_u32_at(tag, 8)))))
    } else {
        None
    }
}

/// The UTF-16 code unit at byte `i` of big-endian text.
pub open spec fn unit_at(s: Seq<u8>, i: int) -> int {
    be_u16_value(s[i], s[i + 1])
}

/// The characters of the big-endian UTF-16 text `s` from byte `i` on: a
/// surrogate pair gives one supplementary character, an unpaired surrogate
/// gives U+FFFD, and a trailing odd byte is ignored.
pub open spec fn utf16_chars_from(s: Seq<u8>, i: int) -> Seq<char>
    decreases s.len() - i,
{
    if i < 0 || i + 2 > s.len() {
        seq![]
    } else {
        let u = unit_at(s, i);
        if u < 0xD800 || u >= 0xE000 {
            seq![u as char] + utf16_chars_from(s, i + 2)
        } else if u < 0xDC00 && i + 4 <= s.len() && 0xDC00 <= unit_at(s, i + 2) < 0xE000 {
            seq![(0x10000 + (u - 0xD800) * 1024 + (unit_at(s, i + 2) - 0xDC00)) as char]
                + utf16_chars_from(s, i + 4)
        } else {
            seq!['\u{FFFD}'] + utf16_chars_from(s, i + 2)
        }
    }
}

/// The text of the first record of a `multiLocalizedUnicodeType` tag body:
/// the record's length and offset (from the start of the tag) are at bytes
/// 20 and 24.
pub open spec fn mluc_description(tag: Seq<u8>) -> Option<Seq<char>> {
    if tag.len() >= 28 && tag.take(4) == mluc_signature() && be_u32_at(tag, 8) >= 1 && be_u32_at(
        tag,
        24,
    ) + be_u32_at(tag, 20) <= tag.len() {
        Some(
            utf16_chars_from(
                tag.subrange(be_u32_at(tag, 24), be_u32_at(tag, 24) + be_u32_at(tag, 20)),
                0,
            ),
        )
    } else {
        None
    }
}

/// The description a profile gives of itself: the text of its `desc` tag,
/// when that tag is of either type and the text is not empty.
pub open spec fn profile_description_text(icc: Seq<u8>) -> Option<Seq<char>> {
    match tag_data(icc, desc_signature()) {
        Some(tag) => {
            let text = if text_description(tag) is Some {
                text_description(tag)
            } else {
                mluc_description(tag)
            };
            match text {
                Some(t) => if t.len() > 0 {
                    Some(t)
                } else {
                    None
                },
                None => None,
            }
        },
        None => None,
    }
}

/// The characters view of an optional string.
pub open spec fn opt_chars(o: Option<String>) -> Option<Seq<char>> {
    match o {
        Some(s) => Some(s@),
        None => None,
    }
}

fn latin1_until_nul(s: &[u8]) -> (t: String)
    ensures
        t@ == byte_chars(before_nul(s@)),
{
    let mut t: String = String::new();
    let mut i: usize = 0;
    while i < s.len()
        invariant
            i <= s@.len(),
            forall|j: int| 0 <= j < i ==> s@[j] != 0,
            t@ == byte_chars(s@.take(i as int)),
        ensures
            i <= s@.len(),
            forall|j: int| 0 <= j < i ==> s@[j] != 0,
            t@ == byte_chars(s@.take(i as int)),
            i < s@.len() ==> s@[i as int] == 0,
        decreases s@.len() - i,
    {
        if s[i] == 0 {
            break;
        }
        push_char(&mut t, s[i] as char);
        i = i + 1;
        assert(t@ =~= byte_chars(s@.take(i as int)));
    }
    if i < s.len() {
        assert(is_first_zero(s@, i as int));
        let ghost c = choose|k: int| is_first_zero(s@, k);
        assert(c == i as int) by {
            if c < i {
                assert(s@[c] != 0);
            }
            if i < c {
                assert(s@[i as int] != 0);
            }
        }
    } else {
        assert(!exists|k: int| is_first_zero(s@, k));
        assert(s@.take(i as int) =~= s@);
    }
    t
}

fn utf16_text(s: &[u8]) -> (t: String)
    ensures
        t@ == utf16_chars_from(s@, 0),
{
    let mut t: String = String::new();
    let mut i: usize = 0;
    while s.len() - i >= 2
        invariant
            i <= s@.len(),
            s@.len() == s.len(),
            t@ + utf16_chars_from(s@, i as int) == utf16_chars_from(s@, 0),
        decreases s@.len() - i,
    {
        let u: u16 = read_be_u16(s, i);
        let ghost rest_before = utf16_chars_from(s@, i as int);
        if u < 0xD800 || u >= 0xE000 {
            let c: char = match char_from_u32(u as u32) {
                Some(c) => c,
                None => '\u{FFFD}',
            };
            assert(c == (u as int) as char);
            assert(rest_before == seq![c] + utf16_chars_from(s@, i + 2));
            push_char(&mut t, c);
            i = i + 2;
            assert(t@ + utf16_chars_from(s@, i as int) =~= utf16_chars_from(s@, 0));
        } else if u < 0xDC00 && s.len() - i >= 4 && 0xDC00 <= read_be_u16(s, i + 2) && read_be_u16(
            s,
            i + 2,
        ) < 0xE000 {
            let low: u16 = read_be_u16(s, i + 2);
            let cp: u32 = 0x10000 + ((u - 0xD800) as u32) * 1024 + ((low - 0xDC00) as u32);
            let c: char = match char_from_u32(cp) {
                Some(c) => c,
                None => '\u{FFFD}',
            };
            assert(c == (cp as int) as char);
            assert(rest_before == seq![c] + utf16_chars_from(s@, i + 4));
            push_char(&mut t, c);
            i = i + 4;
            assert(t@ + utf16_chars_from(s@, i as int) =~= utf16_chars_from(s@, 0));
        } else {
            assert(rest_before == seq!['\u{FFFD}'] + utf16_chars_from(s@, i + 2));
            push_char(&mut t, '\u{FFFD}');
            i = i + 2;
            assert(t@ + utf16_chars_from(s@, i as int) =~= utf16_chars_from(s@, 0));
        }
    }
    assert(utf16_chars_from(s@, i as int) =~= Seq::<char>::empty());
    assert(t@ =~= t@ + Seq::<char>::empty());
    t
}

fn desc_tag_text(tag: &[u8]) -> (res: Option<String>)
    ensures
        opt_chars(res) == if text_description(tag@) is Some {
            text_description(tag@)
        } else {
            mluc_description(tag@)
        },
{
    let desc: [u8; 4] = [0x64u8, 0x65, 0x73, 0x63];
    let mluc: [u8; 4] = [0x6Du8, 0x6C, 0x75, 0x63];
    assert(desc@ =~= desc_signature());
    assert(mluc@ =~= mluc_signature());
    if tag.len() >= 12 && bytes_at(tag, 0, desc.as_slice()) {
        assert(tag@.take(4) =~= tag@.subrange(0, 4));
        let n: usize = read_be_u32(tag, 8) as usize;
        if n <= tag.len() - 12 {
            let body: &[u8] = vstd::slice::slice_subrange(tag, 12, 12 + n);
            return Some(latin1_until_nul(body));
        }
    }
    assert(text_description(tag@) is None) by {
        if tag@.len() >= 12 {
            assert(tag@.take(4) =~= tag@.subrange(0, 4));
        }
    }
    if tag.len() >= 28 && bytes_at(tag, 0, mluc.as_slice()) {
        assert(tag@.take(4) =~= tag@.subrange(0, 4));
        let count: u32 = read_be_u32(tag, 8);
        let len: usize = read_be_u32(tag, 20) as usize;
        let off: usize = read_be_u32(tag, 24) as usize;
        if count >= 1 && off <= tag.len() && len <= tag.len() - off {
            let body: &[u8] = vstd::slice::slice_subrange(tag, off, off + len);
            return Some(utf16_text(body));
        }
    }
    assert(mluc_description(tag@) is None) by {
        if tag@.len() >= 28 {
            assert(tag@.take(4) =~= tag@.subrange(0, 4));
        }
    }
    None
}

/// The profile's own description, from its `desc` tag; `None` when the tag
/// is missing, of another type, or empty.
pub fn profile_description(icc: &[u8]) -> (res: Option<String>)
    ensures
        opt_chars(res) == profile_description_text(icc@),
{
    let desc: [u8; 4] = [0x64u8, 0x65, 0x73, 0x63];
    assert(desc@ =~= desc_signature());
    match find_tag(icc, &desc) {
        Some(tag) => {
            match desc_tag_text(tag) {
                Some(t) => {
                    let empty: String = String::new();
                    assert(t@.len() == 0 ==> t@ =~= empty@);
                    if t == empty {
                        None
                    } else {
                        Some(t)
                    }
                },
                None => None,
            }
        },
        None => None,
    }
}

/// For a profile whose `desc` tag is a `textDescriptionType` (`desc`, four
/// reserved bytes, a big-endian count `n`, then `n` bytes of text) with the
/// text inside the tag, the description is the text before its first NUL
/// (here the first `k` bytes, when they are not empty), whatever else
/// follows in the tag, such as the Unicode and ScriptCode parts.
pub proof fn lemma_text_description_read(icc: Seq<u8>, tag: Seq<u8>, n: int, k: int)
    requires
        tag_data(icc, seq![0x64u8, 0x65, 0x73, 0x63]) == Some(tag),
        tag.len() >= 12,
        tag[0] == 0x64 && tag[1] == 0x65 && tag[2] == 0x73 && tag[3] == 0x63,
        n == tag[8] as int * 16777216 + tag[9] as int * 65536 + tag[10] as int * 256
            + tag[11] as int,
        12 + n <= tag.len(),
        0 < k <= n,
        forall|i: int| 12 <= i < 12 + k ==> tag[i] != 0,
        k < n ==> tag[12 + k] == 0,
    ensures
        profile_description_text(icc) matches Some(t) && t.len() == k && forall|i: int|
            0 <= i < k ==> t[i] == (tag[12 + i] as int) as char,
{
    assert(tag.take(4) =~= desc_signature());
    assert(desc_signature() =~= seq![0x64u8, 0x65, 0x73, 0x63]);
    let body = tag.subrange(12, 12 + n);
    if k < n {
        assert(is_first_zero(body, k));
        let c = choose|i: int| is_first_zero(body, i);
        assert(c == k) by {
            if c < k {
                assert(body[c] == tag[12 + c]);
                assert(tag[12 + c] != 0);
            }
            if k < c {
                assert(body[k] != 0);
            }
        }
    } else {
        assert(!exists|i: int| is_first_zero(body, i)) by {
            if exists|i: int| is_first_zero(body, i) {
                let i = choose|i: int| is_first_zero(body, i);
                assert(body[i] == tag[12 + i]);
                assert(tag[12 + i] != 0);
            }
        }
        assert(body.take(k) =~= body);
    }
    let t = byte_chars(before_nul(body));
    assert(t.len() == k);
    assert forall|i: int| 0 <= i < k implies t[i] == (tag[12 + i] as int) as char by {
        assert(before_nul(body)[i] == body[i]);
    }
}

/// The `k`-th big-endian 16-bit code unit of `s`.
pub open spec fn code_unit(s: Seq<u8>, k: int) -> int {
    s[2 * k] as int * 256 + s[2 * k + 1] as int
}

proof fn lemma_bmp_units(s: Seq<u8>, j: int, m: int)
    requires
        s.len() == 2 * m,
        0 <= j <= m,
        forall|k: int| j <= k < m ==> !(0xD800 <= #[trigger] code_unit(s, k) < 0xE000),
    ensures
        utf16_chars_from(s, 2 * j).len() == m - j,
        forall|k: int| j <= k < m ==> utf16_chars_from(s, 2 * j)[k - j] == (code_unit(s, k)) as char,
    decreases m - j,
{
    if j < m {
        assert(unit_at(s, 2 * j) == code_unit(s, j));
        lemma_bmp_units(s, j + 1, m);
        assert(2 * j + 2 == 2 * (j + 1));
        let rest = utf16_chars_from(s, 2 * (j + 1));
        assert(utf16_chars_from(s, 2 * j) == seq![(code_unit(s, j)) as char] + rest);
        assert forall|k: int| j <= k < m implies utf16_chars_from(s, 2 * j)[k - j] == (code_unit(
            s,
            k,
        )) as char by {
            if k > j {
                assert(utf16_chars_from(s, 2 * j)[k - j] == rest[k - (j + 1)]);
            }
        }
    }
}

/// For a profile whose `desc` tag is a `multiLocalizedUnicodeType` whose
/// first record names `m` code units at offset `off`, all of them outside
/// the surrogate range, the description is those code units as characters,
/// one for one, whatever the other records or bytes of the tag hold.
pub proof fn lemma_unicode_description_read(icc: Seq<u8>, tag: Seq<u8>, off: int, m: int)
    requires
        tag_data(icc, seq![0x64u8, 0x65, 0x73, 0x63]) == Some(tag),
        tag.len() >= 28,
        tag[0] == 0x6D && tag[1] == 0x6C && tag[2] == 0x75 && tag[3] == 0x63,
        tag[8] as int * 16777216 + tag[9] as int * 65536 + tag[10] as int * 256 + tag[11] as int
            >= 1,
        2 * m == tag[20] as int * 16777216 + tag[21] as int * 65536 + tag[22] as int * 256
            + tag[23] as int,
        off == tag[24] as int * 16777216 + tag[25] as int * 65536 + tag[26] as int * 256
            + tag[27] as int,
        off + 2 * m <= tag.len(),
        m > 0,
        forall|k: int|
            0 <= k < m ==> !(0xD800 <= #[trigger] code_unit(tag.subrange(off, off + 2 * m), k)
                < 0xE000),
    ensures
        profile_description_text(icc) matches Some(t) && t.len() == m && forall|k: int|
            0 <= k < m ==> t[k] == (code_unit(tag.subrange(off, off + 2 * m), k)) as char,
{
    assert(tag.take(4) =~= mluc_signature());
    assert(tag.take(4) != desc_signature()) by {
        assert(tag.take(4)[0] == 0x6D);
    }
    assert(text_description(tag) is None);
    let s = tag.subrange(off, off + 2 * m);
    lemma_bmp_units(s, 0, m);
}

} // verus!
