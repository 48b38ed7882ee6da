//! Little-endian readers for the fixed-offset words of binary containers.

use vstd::prelude::*;

verus! {

/// The value of the little-endian 32-bit word at `off`.
pub open spec fn spec_le32_at(data: Seq<u8>, off: int) -> int {
    data[off] + data[off + 1] * 0x100 + data[off + 2] * 0x1_0000 + data[off + 3] * 0x100_0000
}

/// The value of the little-endian 64-bit word at `off`.
pub open spec fn spec_le64_at(data: Seq<u8>, off: int) -> int {
    spec_le32_at(data, off) + spec_le32_at(data, off + 4) * 0x1_0000_0000
}

/// Reads the little-endian 32-bit word at `off`.
pub fn le32_at(data: &Vec<u8>, off: usize) -> (r: u32)
    requires
        off + 4 <= data.len(),
    ensures
        r == spec_le32_at(data@, off as int),
{
    let b0 = data[off] as u32;
    let b1 = data[off + 1] as u32;
    let b2 = data[off + 2] as u32;
    let b3 = data[off + 3] as u32;
    b0 + b1 * 0x100 + b2 * 0x1_0000 + b3 * 0x100_0000
}

/// Reads the little-endian 64-bit word at `off`.
pub fn le64_at(data: &Vec<u8>, off: usize) -> (r: u64)
    requires
        off + 8 <= data.len(),
    ensures
        r == spec_le64_at(data@, off as int),
{
    let low = le32_at(data, off) as u64;
    let high = le32_at(data, off + 4) as u64;
    low + high * 0x1_0000_0000
}

} // verus!
