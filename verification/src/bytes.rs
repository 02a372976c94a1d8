//! Byte order and reading integers out of byte buffers.
use vstd::prelude::*;

verus! {

/// The byte order of a file's integers.
#[derive(Debug, Clone, Copy, PartialEq, Eq, Structural)]
pub enum Endian {
    Big,
    Little,
}

/// The `u32` that four bytes hold, first byte most significant.
pub open spec fn be32(b0: u8, b1: u8, b2: u8, b3: u8) -> u32 {
    (b0 * 0x100_0000 + b1 * 0x1_0000 + b2 * 0x100 + b3) as u32
}

/// The `u32` at `index` of `data` in the given byte order.
pub open spec fn u32_at(data: Seq<u8>, endian: Endian, index: int) -> u32 {
    match endian {
        Endian::Big => be32(data[index], data[index + 1], data[index + 2], data[index + 3]),
        Endian::Little => be32(data[index + 3], data[index + 2], data[index + 1], data[index]),
    }
}

fn join32(b0: u8, b1: u8, b2: u8, b3: u8) -> (r: u32)
    ensures
        r == be32(b0, b1, b2, b3),
{
    b0 as u32 * 0x100_0000 + b1 as u32 * 0x1_0000 + b2 as u32 * 0x100 + b3 as u32
}

/// Reads the `u32` stored at `index` of `data`.
pub fn u32_from_index(data: &[u8], endian: Endian, index: usize) -> (r: u32)
    requires
        index + 4 <= data.len(),
    ensures
        r == u32_at(data@, endian, index as int),
{
    match endian {
        Endian::Big => join32(data[index], data[index + 1], data[index + 2], data[index + 3]),
        Endian::Little => join32(data[index + 3], data[index + 2], data[index + 1], data[index]),
    }
}

} // verus!
