//! Little-endian integer decoding from raw bytes.

use vstd::prelude::*;

verus! {

/// The unsigned value of two bytes in little-endian order.
pub open spec fn spec_u16_le(b0: u8, b1: u8) -> u16 {
    (b0 as int + 256 * (b1 as int)) as u16
}

/// The two's-complement value of two bytes in little-endian order.
pub open spec fn spec_i16_le(b0: u8, b1: u8) -> i16 {
    let v = b0 as int + 256 * (b1 as int);
    (if v < 0x8000 { v } else { v - 0x1_0000 }) as i16
}

/// The two's-complement value of the four bytes of `s` starting at `off`,
/// in little-endian order.
pub open spec fn spec_i32_le(s: Seq<u8>, off: int) -> i32 {
    let v = s[off] as int + 0x100 * (s[off + 1] as int) + 0x1_0000 * (s[off + 2] as int)
        + 0x100_0000 * (s[off + 3] as int);
    (if v < 0x8000_0000 { v } else { v - 0x1_0000_0000 }) as i32
}

/// The two's-complement value of the little-endian bytes `b0`..`b3`.
pub open spec fn twos_complement_32(b0: u8, b1: u8, b2: u8, b3: u8) -> int {
    let x = b0 + 0x100 * b1 + 0x1_0000 * b2 + 0x100_0000 * b3;
    if x < 0x8000_0000 { x } else { x - 0x1_0000_0000 }
}

/// The little-endian `u16` stored in `s` at `off`.
pub open spec fn u16_at(s: Seq<u8>, off: int) -> u16 {
    spec_u16_le(s[off], s[off + 1])
}

/// The little-endian `i16` stored in `s` at `off`.
pub open spec fn i16_at(s: Seq<u8>, off: int) -> i16 {
    spec_i16_le(s[off], s[off + 1])
}

/// Decodes a little-endian `u16` from two bytes.
pub fn u16_le(b0: u8, b1: u8) -> (r: u16)
    ensures
        r == spec_u16_le(b0, b1),
        r as int == b0 as int + 256 * (b1 as int),
{
    (b0 as u16) + (b1 as u16) * 256
}

/// Decodes a little-endian `i16` from two bytes.
pub fn i16_le(b0: u8, b1: u8) -> (r: i16)
    ensures
        r == spec_i16_le(b0, b1),
{
    let v = u16_le(b0, b1);
    if v < 0x8000 {
        v as i16
    } else {
        ((v as i32) - 0x1_0000) as i16
    }
}

/// Reads the little-endian `u16` at `off` in `buf`.
pub fn read_u16(buf: &[u8], off: usize) -> (r: u16)
    requires
        off + 2 <= buf@.len(),
    ensures
        r == u16_at(buf@, off as int),
        r as int == buf@[off as int] + 256 * buf@[off + 1],
{
    u16_le(buf[off], buf[off + 1])
}

/// Reads the little-endian `i16` at `off` in `buf`.
pub fn read_i16(buf: &[u8], off: usize) -> (r: i16)
    requires
        off + 2 <= buf@.len(),
    ensures
        r == i16_at(buf@, off as int),
        r as int == (if buf@[off as int] + 256 * buf@[off + 1] < 0x8000 {
            buf@[off as int] + 256 * buf@[off + 1]
        } else {
            buf@[off as int] + 256 * buf@[off + 1] - 0x1_0000
        }),
{
    i16_le(buf[off], buf[off + 1])
}

/// Reads the little-endian `i32` at `off` in `block`.
pub fn read_i32(block: &[u8], off: usize) -> (r: i32)
    requires
        off + 4 <= block@.len(),
    ensures
        r == spec_i32_le(block@, off as int),
        r as int == twos_complement_32(block@[off as int], block@[off + 1], block@[off + 2], block@[off + 3]),
{
    let v: u32 = (block[off] as u32) + (block[off + 1] as u32) * 0x100 + (block[off + 2] as u32)
        * 0x1_0000 + (block[off + 3] as u32) * 0x100_0000;
    if v < 0x8000_0000 {
        v as i32
    } else {
        ((v as i64) - 0x1_0000_0000) as i32
    }
}

} // verus!
