//! Little-endian field access over byte buffers.
//!
//! Every on-disk structure of the archive format is a packed sequence of
//! little-endian integers.  The readers here fetch one field at a byte
//! position of a buffer, and the writers append one field to a buffer being
//! built; both are specified against the little-endian byte functions of
//! vstd, so that encode and decode are provably inverse.

use vstd::bytes::{
    spec_u16_from_le_bytes, spec_u16_to_le_bytes, spec_u32_from_le_bytes, spec_u32_to_le_bytes,
    spec_u64_from_le_bytes, spec_u64_to_le_bytes, u16_from_le_bytes, u16_to_le_bytes,
    u32_from_le_bytes, u32_to_le_bytes, u64_from_le_bytes, u64_to_le_bytes,
};
use vstd::prelude::*;

verus! {

/// The 16-bit little-endian value at byte position `pos` of `s`.
pub open spec fn le16_at(s: Seq<u8>, pos: int) -> u16
    recommends
        0 <= pos,
        pos + 2 <= s.len(),
{
    spec_u16_from_le_bytes(s.subrange(pos, pos + 2))
}

/// The 32-bit little-endian value at byte position `pos` of `s`.
pub open spec fn le32_at(s: Seq<u8>, pos: int) -> u32
    recommends
        0 <= pos,
        pos + 4 <= s.len(),
{
    spec_u32_from_le_bytes(s.subrange(pos, pos + 4))
}

/// The 64-bit little-endian value at byte position `pos` of `s`.
pub open spec fn le64_at(s: Seq<u8>, pos: int) -> u64
    recommends
        0 <= pos,
        pos + 8 <= s.len(),
{
    spec_u64_from_le_bytes(s.subrange(pos, pos + 8))
}

/// Reads the 16-bit little-endian field at `pos`.
pub fn read_u16(data: &[u8], pos: usize) -> (r: u16)
    requires
        pos + 2 <= data@.len(),
    ensures
        r == le16_at(data@, pos as int),
{
    // taking the length shows the verifier that positions fit in usize
    let n = data.len();
    u16_from_le_bytes(&data[pos..pos + 2])
}

/// Reads the 32-bit little-endian field at `pos`.
pub fn read_u32(data: &[u8], pos: usize) -> (r: u32)
    requires
        pos + 4 <= data@.len(),
    ensures
        r == le32_at(data@, pos as int),
{
    // taking the length shows the verifier that positions fit in usize
    let n = data.len();
    u32_from_le_bytes(&data[pos..pos + 4])
}

/// Reads the 64-bit little-endian field at `pos`.
pub fn read_u64(data: &[u8], pos: usize) -> (r: u64)
    requires
        pos + 8 <= data@.len(),
    ensures
        r == le64_at(data@, pos as int),
{
    // taking the length shows the verifier that positions fit in usize
    let n = data.len();
    u64_from_le_bytes(&data[pos..pos + 8])
}

/// Appends the 2-byte little-endian form of `x` to `out`.
pub fn push_u16(out: &mut Vec<u8>, x: u16)
    ensures
        final(out)@ == old(out)@ + spec_u16_to_le_bytes(x),
        final(out)@.len() == old(out)@.len() + 2,
{
    let mut bytes = u16_to_le_bytes(x);
    out.append(&mut bytes);
}

/// Appends the 4-byte little-endian form of `x` to `out`.
pub fn push_u32(out: &mut Vec<u8>, x: u32)
    ensures
        final(out)@ == old(out)@ + spec_u32_to_le_bytes(x),
        final(out)@.len() == old(out)@.len() + 4,
{
    let mut bytes = u32_to_le_bytes(x);
    out.append(&mut bytes);
}

/// Appends the 8-byte little-endian form of `x` to `out`.
pub fn push_u64(out: &mut Vec<u8>, x: u64)
    ensures
        final(out)@ == old(out)@ + spec_u64_to_le_bytes(x),
        final(out)@.len() == old(out)@.len() + 8,
{
    let mut bytes = u64_to_le_bytes(x);
    out.append(&mut bytes);
}

/// Copies `n` bytes starting at `pos` into a fresh buffer.
pub fn copy_bytes(data: &[u8], pos: usize, n: usize) -> (r: Vec<u8>)
    requires
        pos + n <= data@.len(),
    ensures
        r@ == data@.subrange(pos as int, pos + n),
{
    // taking the length shows the verifier that positions fit in usize
    let total = data.len();
    let mut out: Vec<u8> = Vec::new();
    let mut i: usize = 0;
    while i < n
        invariant
            i <= n,
            pos + n <= data@.len(),
            data@.len() <= usize::MAX,
            out@ == data@.subrange(pos as int, pos + i),
        decreases n - i,
    {
        out.push(data[pos + i]);
        i = i + 1;
        assert(out@ == data@.subrange(pos as int, pos + i as int));
    }
    out
}

/// Whether two byte strings hold the same bytes.
pub fn bytes_equal(a: &[u8], b: &[u8]) -> (r: bool)
    ensures
        r == (a@ == b@),
{
    let n = a.len();
    if n != b.len() {
        proof {
            assert(a@.len() != b@.len());
        }
        return false;
    }
    let mut i: usize = 0;
    while i < n
        invariant
            i <= n,
            n == a@.len(),
            n == b@.len(),
            forall|j: int| 0 <= j < i ==> a@[j] == b@[j],
        decreases n - i,
    {
        if a[i] != b[i] {
            return false;
        }
        i = i + 1;
    }
    proof {
        assert(a@ =~= b@);
    }
    true
}

} // verus!
