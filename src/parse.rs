//! Big-endian integer readers over byte slices.
use vstd::prelude::*;

verus! {

pub open spec fn be_u16_at(s: Seq<u8>, i: int) -> int {
    s[i] as int * 256 + s[i + 1] as int
}

pub open spec fn be_u24_at(s: Seq<u8>, i: int) -> int {
    s[i] as int * 65536 + s[i + 1] as int * 256 + s[i + 2] as int
}

pub open spec fn be_u32_at(s: Seq<u8>, i: int) -> int {
    s[i] as int * 16777216 + s[i + 1] as int * 65536 + s[i + 2] as int * 256 + s[i + 3] as int
}

/// Width in bytes of the smart integer that starts at `i`: two when the top bit of
/// its first byte is clear, four otherwise.
pub open spec fn smart_width(s: Seq<u8>, i: int) -> int {
    if s[i] < 0x80 {
        2
    } else {
        4
    }
}

/// Value of the smart integer that starts at `i`; the four-byte form has its top bit
/// masked off.
pub open spec fn smart_value(s: Seq<u8>, i: int) -> int {
    if s[i] < 0x80 {
        be_u16_at(s, i)
    } else {
        be_u32_at(s, i) - 0x8000_0000
    }
}

pub fn read_u8(buf: &[u8], pos: usize) -> (r: Option<u8>)
    ensures
        pos < buf@.len() ==> r == Some(buf@[pos as int]),
        pos >= buf@.len() ==> r is None,
{
    if pos < buf.len() {
        Some(buf[pos])
    } else {
        None
    }
}

pub fn read_u16(buf: &[u8], pos: usize) -> (r: Option<u16>)
    ensures
        pos + 2 <= buf@.len() ==> (r matches Some(v) && v as int == be_u16_at(buf@, pos as int)),
        pos + 2 > buf@.len() ==> r is None,
{
    if pos <= buf.len() && buf.len() - pos >= 2 {
        Some(buf[pos] as u16 * 256 + buf[pos + 1] as u16)
    } else {
        None
    }
}

pub fn read_u24(buf: &[u8], pos: usize) -> (r: Option<u32>)
    ensures
        pos + 3 <= buf@.len() ==> (r matches Some(v) && v as int == be_u24_at(buf@, pos as int)),
        pos + 3 > buf@.len() ==> r is None,
{
    if pos <= buf.len() && buf.len() - pos >= 3 {
        Some(buf[pos] as u32 * 65536 + buf[pos + 1] as u32 * 256 + buf[pos + 2] as u32)
    } else {
        None
    }
}

pub fn read_u32(buf: &[u8], pos: usize) -> (r: Option<u32>)
    ensures
        pos + 4 <= buf@.len() ==> (r matches Some(v) && v as int == be_u32_at(buf@, pos as int)),
        pos + 4 > buf@.len() ==> r is None,
{
    if pos <= buf.len() && buf.len() - pos >= 4 {
        Some(
            buf[pos] as u32 * 16777216 + buf[pos + 1] as u32 * 65536 + buf[pos + 2] as u32 * 256
                + buf[pos + 3] as u32,
        )
    } else {
        None
    }
}

/// Reads a smart integer at `pos`, giving its value and the position after it.
pub fn read_u32_smart(buf: &[u8], pos: usize) -> (r: Option<(u32, usize)>)
    ensures
        pos < buf@.len() && pos + smart_width(buf@, pos as int) <= buf@.len() ==> (r matches Some(p)
            && p.0 as int == smart_value(buf@, pos as int) && p.1 == pos + smart_width(buf@, pos as int)),
        !(pos < buf@.len() && pos + smart_width(buf@, pos as int) <= buf@.len()) ==> r is None,
{
    if pos >= buf.len() {
        return None;
    }
    if buf[pos] < 0x80 {
        match read_u16(buf, pos) {
            Some(v) => Some((v as u32, pos + 2)),
            None => None,
        }
    } else {
        match read_u32(buf, pos) {
            Some(v) => Some((v - 0x8000_0000, pos + 4)),
            None => None,
        }
    }
}

} // verus!

verus! {

/// Appends all of `src` to `out`.
pub fn extend_bytes(out: &mut Vec<u8>, src: &[u8])
    ensures
        final(out)@ == old(out)@ + src@,
{
    let mut j: usize = 0;
    while j < src.len()
        invariant
            j <= src@.len(),
            out@ == old(out)@ + src@.subrange(0, j as int),
        decreases src@.len() - j,
    {
        out.push(src[j]);
        j = j + 1;
        assert(src@.subrange(0, j as int) == src@.subrange(0, j - 1) + seq![src@[j - 1]]);
    }
    assert(src@.subrange(0, j as int) == src@);
}

} // verus!
