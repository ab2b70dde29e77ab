//! Byte-level helpers shared by the manifest and chunk codecs.

use vstd::prelude::*;
use vstd::slice::{slice_subrange, slice_to_vec};
use crate::hash::Hash256;

verus! {

/// Copy the 32 bytes at `off` into a hash.
pub fn hash_from_slice(b: &[u8], off: usize) -> (h: Hash256)
    requires
        off + 32 <= b@.len(),
    ensures
        h@ == b@.subrange(off as int, off + 32),
{
    let blen = b.len();
    let mut bytes = [0u8; 32];
    let mut j: usize = 0;
    while j < 32
        invariant
            j <= 32,
            blen == b@.len(),
            off + 32 <= blen,
            forall|k: int| 0 <= k < j ==> bytes@[k] == b@[off + k],
        decreases 32 - j,
    {
        bytes[j] = b[off + j];
        j = j + 1;
    }
    let h = Hash256 { bytes };
    proof {
        assert(h@ =~= b@.subrange(off as int, off + 32));
    }
    h
}

/// Copy the `n` bytes at `off` into a fresh vector.
pub fn bytes_from_slice(b: &[u8], off: usize, n: usize) -> (r: Vec<u8>)
    requires
        off + n <= b@.len(),
    ensures
        r@ == b@.subrange(off as int, off + n),
{
    let blen = b.len();
    slice_to_vec(slice_subrange(b, off, off + n))
}

/// Read the little-endian `u64` at `off`.
pub fn read_u64(b: &[u8], off: usize) -> (x: u64)
    requires
        off + 8 <= b@.len(),
    ensures
        x == vstd::bytes::spec_u64_from_le_bytes(b@.subrange(off as int, off + 8)),
{
    let blen = b.len();
    vstd::bytes::u64_from_le_bytes(slice_subrange(b, off, off + 8))
}

/// Read the little-endian `u32` at `off`.
pub fn read_u32(b: &[u8], off: usize) -> (x: u32)
    requires
        off + 4 <= b@.len(),
    ensures
        x == vstd::bytes::spec_u32_from_le_bytes(b@.subrange(off as int, off + 4)),
{
    let blen = b.len();
    vstd::bytes::u32_from_le_bytes(slice_subrange(b, off, off + 4))
}

/// Append the little-endian bytes of `x` to `out`.
pub fn push_u64(out: &mut Vec<u8>, x: u64)
    ensures
        final(out)@ == old(out)@ + vstd::bytes::spec_u64_to_le_bytes(x),
{
    let mut le = vstd::bytes::u64_to_le_bytes(x);
    out.append(&mut le);
}

/// Append the little-endian bytes of `x` to `out`.
pub fn push_u32(out: &mut Vec<u8>, x: u32)
    ensures
        final(out)@ == old(out)@ + vstd::bytes::spec_u32_to_le_bytes(x),
{
    let mut le = vstd::bytes::u32_to_le_bytes(x);
    out.append(&mut le);
}

} // verus!
