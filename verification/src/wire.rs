//! Big-endian integer fields of BGP messages.

use vstd::prelude::*;

verus! {

/// The value of a big-endian 16-bit field made of bytes `hi`, `lo`.
pub open spec fn be16(hi: u8, lo: u8) -> nat {
    (hi as nat) * 256 + (lo as nat)
}

/// The value of a big-endian 32-bit field made of bytes `b0`..`b3`.
pub open spec fn be32(b0: u8, b1: u8, b2: u8, b3: u8) -> nat {
    (b0 as nat) * 16777216 + (b1 as nat) * 65536 + (b2 as nat) * 256 + (b3 as nat)
}

/// The 16-bit field starting at `i` of `s`.
pub open spec fn be16_at(s: Seq<u8>, i: int) -> nat {
    be16(s[i], s[i + 1])
}

/// The 32-bit field starting at `i` of `s`.
pub open spec fn be32_at(s: Seq<u8>, i: int) -> nat {
    be32(s[i], s[i + 1], s[i + 2], s[i + 3])
}

/// Reads the big-endian 16-bit field at `i`.
pub fn read_u16(data: &[u8], i: usize) -> (r: u16)
    requires
        i + 2 <= data@.len(),
    ensures
        r == be16_at(data@, i as int),
{
    (data[i] as u16) * 256 + (data[i + 1] as u16)
}

/// Reads the big-endian 32-bit field at `i`.
pub fn read_u32(data: &[u8], i: usize) -> (r: u32)
    requires
        i + 4 <= data@.len(),
    ensures
        r == be32_at(data@, i as int),
{
    (data[i] as u32) * 16777216 + (data[i + 1] as u32) * 65536 + (data[i + 2] as u32) * 256
        + (data[i + 3] as u32)
}

} // verus!
