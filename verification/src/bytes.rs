//! Big-endian integer fields read out of a byte sequence.

use vstd::prelude::*;

verus! {

/// The big-endian 16-bit word at position `i` of `d`.
pub open spec fn be_u16_at(d: Seq<u8>, i: int) -> u16 {
    (d[i] * 0x100 + d[i + 1]) as u16
}

/// The big-endian 32-bit word at position `i` of `d`.
pub open spec fn be_u32_at(d: Seq<u8>, i: int) -> u32 {
    (d[i] * 0x100_0000 + d[i + 1] * 0x1_0000 + d[i + 2] * 0x100 + d[i + 3]) as u32
}

/// The big-endian 16-bit word at position `i` of `d`, as a signed value.
pub open spec fn be_i16_at(d: Seq<u8>, i: int) -> i16 {
    be_u16_at(d, i) as i16
}

/// The big-endian 32-bit word at position `i` of `d`, as a signed value.
pub open spec fn be_i32_at(d: Seq<u8>, i: int) -> i32 {
    be_u32_at(d, i) as i32
}

/// Reads the big-endian 16-bit word at position `i` of `b`.
pub fn read_be_u16(b: &[u8], i: usize) -> (r: u16)
    requires
        i + 2 <= b@.len(),
    ensures
        r == be_u16_at(b@, i as int),
{
    let hi = b[i];
    let lo = b[i + 1];
    (hi as u16) * 0x100 + (lo as u16)
}

/// Reads the big-endian 32-bit word at position `i` of `b`.
pub fn read_be_u32(b: &[u8], i: usize) -> (r: u32)
    requires
        i + 4 <= b@.len(),
    ensures
        r == be_u32_at(b@, i as int),
{
    let b0 = b[i];
    let b1 = b[i + 1];
    let b2 = b[i + 2];
    let b3 = b[i + 3];
    (b0 as u32) * 0x100_0000 + (b1 as u32) * 0x1_0000 + (b2 as u32) * 0x100 + (b3 as u32)
}

/// Reads the big-endian 16-bit word at position `i` of `b`, as a signed value.
pub fn read_be_i16(b: &[u8], i: usize) -> (r: i16)
    requires
        i + 2 <= b@.len(),
    ensures
        r == be_i16_at(b@, i as int),
{
    read_be_u16(b, i) as i16
}

/// Reads the big-endian 32-bit word at position `i` of `b`, as a signed value.
pub fn read_be_i32(b: &[u8], i: usize) -> (r: i32)
    requires
        i + 4 <= b@.len(),
    ensures
        r == be_i32_at(b@, i as int),
{
    read_be_u32(b, i) as i32
}

} // verus!
