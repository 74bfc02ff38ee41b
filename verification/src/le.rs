//! Little-endian integers inside byte sequences.

use vstd::prelude::*;

verus! {

/// The unsigned 16-bit little-endian integer stored at `offset` of `s`.
pub open spec fn u16_le(s: Seq<u8>, offset: int) -> int {
    s[offset] as int + 256 * (s[offset + 1] as int)
}

/// The unsigned 32-bit little-endian integer stored at `offset` of `s`.
pub open spec fn u32_le(s: Seq<u8>, offset: int) -> int {
    s[offset] as int + 256 * (s[offset + 1] as int) + 65536 * (s[offset + 2] as int)
        + 16777216 * (s[offset + 3] as int)
}

/// The two's-complement 32-bit little-endian integer stored at `offset` of `s`.
pub open spec fn i32_le(s: Seq<u8>, offset: int) -> int {
    let u = u32_le(s, offset);
    if u >= 0x8000_0000 {
        u - 0x1_0000_0000
    } else {
        u
    }
}

/// The two little-endian bytes of `v` modulo 2^16.
pub open spec fn le16(v: int) -> Seq<u8> {
    seq![(v % 256) as u8, ((v / 256) % 256) as u8]
}

/// The four little-endian bytes of `v`, for `v` in the `u32` or the `i32`
/// range; a negative `v` gives its two's-complement bytes.
pub open spec fn le32(v: int) -> Seq<u8> {
    let u = if v < 0 {
        v + 0x1_0000_0000
    } else {
        v
    };
    seq![
        (u % 256) as u8,
        ((u / 256) % 256) as u8,
        ((u / 65536) % 256) as u8,
        ((u / 16777216) % 256) as u8,
    ]
}

/// Reading back the four bytes `le32` writes gives the value.
pub proof fn lemma_u32_le_of_le32(v: int, s: Seq<u8>, offset: int)
    requires
        0 <= v < 0x1_0000_0000,
        0 <= offset,
        offset + 4 <= s.len(),
        s.subrange(offset, offset + 4) == le32(v),
    ensures
        u32_le(s, offset) == v,
{
    assert(s[offset] == le32(v)[0]);
    assert(s[offset + 1] == le32(v)[1]);
    assert(s[offset + 2] == le32(v)[2]);
    assert(s[offset + 3] == le32(v)[3]);
}

/// Reading back the four bytes `le32` writes for an `i32` gives the value,
/// negative ones too.
pub proof fn lemma_i32_le_of_le32(v: int, s: Seq<u8>, offset: int)
    requires
        -0x8000_0000 <= v < 0x8000_0000,
        0 <= offset,
        offset + 4 <= s.len(),
        s.subrange(offset, offset + 4) == le32(v),
    ensures
        i32_le(s, offset) == v,
{
    let u = if v < 0 { v + 0x1_0000_0000 } else { v };
    assert(le32(u) == le32(v));
    lemma_u32_le_of_le32(u, s, offset);
}

/// Appends the little-endian bytes of `v`.
pub fn push_u16_le(out: &mut Vec<u8>, v: u16)
    ensures
        final(out)@ == old(out)@ + le16(v as int),
{
    out.push((v % 256) as u8);
    out.push((v / 256) as u8);
    assert(final(out)@ =~= old(out)@ + le16(v as int));
}

/// Appends the little-endian bytes of `v`.
pub fn push_u32_le(out: &mut Vec<u8>, v: u32)
    ensures
        final(out)@ == old(out)@ + le32(v as int),
{
    out.push((v % 256) as u8);
    out.push(((v / 256) % 256) as u8);
    out.push(((v / 65536) % 256) as u8);
    out.push((v / 16777216) as u8);
    assert(final(out)@ =~= old(out)@ + le32(v as int));
}

/// Appends the two's-complement little-endian bytes of `v`.
pub fn push_i32_le(out: &mut Vec<u8>, v: i32)
    ensures
        final(out)@ == old(out)@ + le32(v as int),
{
    if v >= 0 {
        push_u32_le(out, v as u32);
    } else {
        let u: u32 = (v as i64 + 0x1_0000_0000i64) as u32;
        push_u32_le(out, u);
    }
}

/// Reads the unsigned 16-bit little-endian integer at `offset`, if the bytes
/// are there.
pub fn u16_at(data: &[u8], offset: usize) -> (r: Option<u16>)
    ensures
        r is Some <==> offset + 2 <= data@.len(),
        r matches Some(v) ==> v as int == u16_le(data@, offset as int),
{
    if offset > data.len() || data.len() - offset < 2 {
        None
    } else {
        Some(data[offset] as u16 + 256 * (data[offset + 1] as u16))
    }
}

/// Reads the unsigned 32-bit little-endian integer at `offset`, if the bytes
/// are there.
pub fn u32_at(data: &[u8], offset: usize) -> (r: Option<u32>)
    ensures
        r is Some <==> offset + 4 <= data@.len(),
        r matches Some(v) ==> v as int == u32_le(data@, offset as int),
{
    if offset > data.len() || data.len() - offset < 4 {
        None
    } else {
        Some(
            data[offset] as u32 + 256 * (data[offset + 1] as u32) + 65536 * (data[offset
                + 2] as u32) + 16777216 * (data[offset + 3] as u32),
        )
    }
}

/// Reads the two's-complement 32-bit little-endian integer at `offset`, if
/// the bytes are there.
pub fn i32_at(data: &[u8], offset: usize) -> (r: Option<i32>)
    ensures
        r is Some <==> offset + 4 <= data@.len(),
        r matches Some(v) ==> v as int == i32_le(data@, offset as int),
{
    match u32_at(data, offset) {
        None => None,
        Some(u) => {
            if u >= 0x8000_0000 {
                Some(((u - 0x8000_0000) as i32) - 0x7fff_ffff - 1)
            } else {
                Some(u as i32)
            }
        },
    }
}

} // verus!
