//! Little-endian integers, read and written with the `byteorder` crate.

use byteorder::{ByteOrder, LittleEndian};
use vstd::bytes::*;
use vstd::prelude::*;

verus! {

/// Calls `byteorder`'s `LittleEndian::read_u16` on the bytes of `data` from
/// `pos` on. Trusted: it returns the little-endian value of the two bytes at
/// `pos` (byteorder decodes them with `u16::from_le_bytes`; it panics on fewer
/// than two bytes, which `requires` rules out).
#[verifier::external_body]
pub(crate) fn le_read_u16(data: &[u8], pos: usize) -> (r: u16)
    requires
        pos + 2 <= data@.len(),
    ensures
        r == spec_u16_from_le_bytes(data@.subrange(pos as int, pos + 2)),
{
    LittleEndian::read_u16(&data[pos..])
}

/// Calls `byteorder`'s `LittleEndian::read_u32` on the bytes of `data` from
/// `pos` on. Trusted: it returns the little-endian value of the four bytes at
/// `pos` (byteorder decodes them with `u32::from_le_bytes`; it panics on fewer
/// than four bytes, which `requires` rules out).
#[verifier::external_body]
pub(crate) fn le_read_u32(data: &[u8], pos: usize) -> (r: u32)
    requires
        pos + 4 <= data@.len(),
    ensures
        r == spec_u32_from_le_bytes(data@.subrange(pos as int, pos + 4)),
{
    LittleEndian::read_u32(&data[pos..])
}

/// Calls `byteorder`'s `LittleEndian::write_u16` on a two-byte buffer.
/// Trusted: the buffer then holds the little-endian bytes of `n` (byteorder
/// copies `n.to_le_bytes()` into it).
#[verifier::external_body]
pub(crate) fn le_bytes_u16(n: u16) -> (b: [u8; 2])
    ensures
        b@ == spec_u16_to_le_bytes(n),
{
    let mut b = [0u8; 2];
    LittleEndian::write_u16(&mut b, n);
    b
}

/// Calls `byteorder`'s `LittleEndian::write_u32` on a four-byte buffer.
/// Trusted: the buffer then holds the little-endian bytes of `n` (byteorder
/// copies `n.to_le_bytes()` into it).
#[verifier::external_body]
pub(crate) fn le_bytes_u32(n: u32) -> (b: [u8; 4])
    ensures
        b@ == spec_u32_to_le_bytes(n),
{
    let mut b = [0u8; 4];
    LittleEndian::write_u32(&mut b, n);
    b
}

/// Calls `byteorder`'s `LittleEndian::write_u128` on a sixteen-byte buffer.
/// Trusted: the buffer then holds the little-endian bytes of `n` (byteorder
/// copies `n.to_le_bytes()` into it).
#[verifier::external_body]
pub(crate) fn le_bytes_u128(n: u128) -> (b: [u8; 16])
    ensures
        b@ == spec_u128_to_le_bytes(n),
{
    let mut b = [0u8; 16];
    LittleEndian::write_u128(&mut b, n);
    b
}

} // verus!
