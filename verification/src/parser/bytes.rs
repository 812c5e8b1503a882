use vstd::prelude::*;

verus! {

/// The big-endian 16-bit integer whose bytes are `hi` then `lo`.
pub open spec fn be16(hi: u8, lo: u8) -> u16 {
    ((hi as int) * 256 + (lo as int)) as u16
}

/// The big-endian 32-bit integer made of the four bytes given, most
/// significant first.
pub open spec fn be32(b0: u8, b1: u8, b2: u8, b3: u8) -> u32 {
    ((b0 as int) * 0x1000000 + (b1 as int) * 0x10000 + (b2 as int) * 0x100 + (b3 as int)) as u32
}

/// Reads the big-endian 16-bit integer stored at `data[i..i + 2]`.
pub fn read_be16(data: &[u8], i: usize) -> (r: u16)
    requires
        i + 2 <= data@.len(),
    ensures
        r == be16(data@[i as int], data@[i + 1]),
{
    (data[i] as u16) * 256 + (data[i + 1] as u16)
}

/// Reads the big-endian 32-bit integer stored at `data[i..i + 4]`.
pub fn read_be32(data: &[u8], i: usize) -> (r: u32)
    requires
        i + 4 <= data@.len(),
    ensures
        r == be32(data@[i as int], data@[i + 1], data@[i + 2], data@[i + 3]),
{
    (data[i] as u32) * 0x1000000 + (data[i + 1] as u32) * 0x10000 + (data[i + 2] as u32) * 0x100
        + (data[i + 3] as u32)
}

} // verus!
