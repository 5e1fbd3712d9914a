//! Big-endian integer reading and byte-sequence helpers shared by the
//! container parsers.

use vstd::prelude::*;

verus! {

/// The unsigned value of two big-endian bytes.
pub open spec fn be_u16_value(hi: u8, lo: u8) -> int {
    hi as int * 256 + lo as int
}

/// The unsigned value of four big-endian bytes.
pub open spec fn be_u32_value(b0: u8, b1: u8, b2: u8, b3: u8) -> int {
    b0 as int * 16777216 + b1 as int * 65536 + b2 as int * 256 + b3 as int
}

/// The unsigned big-endian 32-bit value stored in `s` at offset `at`.
pub open spec fn be_u32_at(s: Seq<u8>, at: int) -> int {
    be_u32_value(s[at], s[at + 1], s[at + 2], s[at + 3])
}

/// The two's-complement reading of a 32-bit unsigned value.
pub open spec fn as_signed32(u: int) -> int {
    if u < 0x8000_0000 {
        u
    } else {
        u - 0x1_0000_0000
    }
}

/// Reads an unsigned big-endian 16-bit value at `at`.
pub fn read_be_u16(s: &[u8], at: usize) -> (v: u16)
    requires
        at + 2 <= s@.len(),
    ensures
        v as int == be_u16_value(s@[at as int], s@[at + 1]),
{
    let hi: u16 = s[at] as u16;
    let lo: u16 = s[at + 1] as u16;
    hi * 256 + lo
}

/// Reads an unsigned big-endian 32-bit value at `at`.
pub fn read_be_u32(s: &[u8], at: usize) -> (v: u32)
    requires
        at + 4 <= s@.len(),
    ensures
        v as int == be_u32_at(s@, at as int),
{
    let b0: u32 = s[at] as u32;
    let b1: u32 = s[at + 1] as u32;
    let b2: u32 = s[at + 2] as u32;
    let b3: u32 = s[at + 3] as u32;
    b0 * 16777216 + b1 * 65536 + b2 * 256 + b3
}

/// Reads a signed (two's-complement) big-endian 32-bit value at `at`.
pub fn read_be_i32(s: &[u8], at: usize) -> (v: i32)
    requires
        at + 4 <= s@.len(),
    ensures
        v as int == as_signed32(be_u32_at(s@, at as int)),
{
    let u: u32 = read_be_u32(s, at);
    if u < 0x8000_0000 {
        u as i32
    } else {
        let low: i32 = (u - 0x8000_0000) as i32;
        low + i32::MIN
    }
}

/// Whether the bytes of `s` in `[at, at + pat.len())` equal `pat`.
pub fn bytes_at(s: &[u8], at: usize, pat: &[u8]) -> (b: bool)
    requires
        at + pat@.len() <= s@.len(),
    ensures
        b == (s@.subrange(at as int, at + pat@.len()) == pat@),
{
    let mut i: usize = 0;
    while i < pat.len()
        invariant
            at + pat@.len() <= s@.len(),
            s@.len() == s.len(),
            i <= pat@.len(),
            forall|j: int| 0 <= j < i ==> s@[at + j] == pat@[j],
        decreases pat@.len() - i,
    {
        if s[at + i] != pat[i] {
            assert(s@.subrange(at as int, at + pat@.len())[i as int] != pat@[i as int]);
            return false;
        }
        i = i + 1;
    }
    assert(s@.subrange(at as int, at + pat@.len()) =~= pat@);
    true
}

/// Appends every byte of `src` to `out`.
pub fn push_all(out: &mut Vec<u8>, src: &[u8])
    ensures
        final(out)@ == old(out)@ + src@,
{
    let mut i: usize = 0;
    while i < src.len()
        invariant
            i <= src@.len(),
            out@ == old(out)@ + src@.subrange(0, i as int),
        decreases src@.len() - i,
    {
        out.push(src[i]);
        i = i + 1;
        assert(src@.subrange(0, i as int) =~= src@.subrange(0, i - 1) + seq![src@[i - 1]]);
    }
    assert(src@.subrange(0, src@.len() as int) =~= src@);
}

} // verus!
