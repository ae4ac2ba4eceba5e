//! Little-endian integers in byte buffers.

use byteorder::{ByteOrder, LittleEndian};
use vstd::prelude::*;

verus! {

/// The 16-bit little-endian integer that the two bytes of `b` from `pos` hold.
pub open spec fn le_u16(b: Seq<u8>, pos: int) -> int {
    b[pos] as int + 0x100 * (b[pos + 1] as int)
}

/// The 32-bit little-endian integer that the four bytes of `b` from `pos`
/// hold.
pub open spec fn le_u32(b: Seq<u8>, pos: int) -> int {
    b[pos] as int + 0x100 * (b[pos + 1] as int) + 0x1_0000 * (b[pos + 2] as int) + 0x100_0000 * (
    b[pos + 3] as int)
}

/// Reads the 16-bit little-endian integer at `pos`.
pub fn u16_at(data: &[u8], pos: usize) -> (r: u16)
    requires
        pos + 2 <= data@.len(),
    ensures
        r as int == le_u16(data@, pos as int),
{
    let lo: u16 = data[pos] as u16;
    let hi: u16 = data[pos + 1] as u16;
    lo + hi * 0x100
}

/// Reads the 32-bit little-endian integer at `pos`.
pub fn u32_at(data: &[u8], pos: usize) -> (r: u32)
    requires
        pos + 4 <= data@.len(),
    ensures
        r as int == le_u32(data@, pos as int),
{
    let b0: u32 = data[pos] as u32;
    let b1: u32 = data[pos + 1] as u32;
    let b2: u32 = data[pos + 2] as u32;
    let b3: u32 = data[pos + 3] as u32;
    b0 + b1 * 0x100 + b2 * 0x1_0000 + b3 * 0x100_0000
}

/// `byteorder::ByteOrder::read_u16` of `LittleEndian`: the integer that the
/// first two bytes of `buf` hold, low byte first. It panics on a shorter
/// buffer, which the precondition leaves out.
#[verifier::external_body]
pub(crate) fn read_u16_le(buf: &[u8]) -> (r: u16)
    requires
        buf@.len() >= 2,
    ensures
        r as int == le_u16(buf@, 0),
{
    LittleEndian::read_u16(buf)
}

/// `byteorder::ByteOrder::read_u32` of `LittleEndian`: the integer that the
/// first four bytes of `buf` hold, low byte first. It panics on a shorter
/// buffer, which the precondition leaves out.
#[verifier::external_body]
pub(crate) fn read_u32_le(buf: &[u8]) -> (r: u32)
    requires
        buf@.len() >= 4,
    ensures
        r as int == le_u32(buf@, 0),
{
    LittleEndian::read_u32(buf)
}

} // verus!
