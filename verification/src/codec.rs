//! Snappy decompression into a reusable scratch buffer.
//!
//! Chunks travel and rest compressed in snappy's raw block format; every
//! consumer decompresses them into a scratch vector that is reused across
//! chunks to amortize allocation.

use vstd::prelude::*;
use crate::errors::Error;

verus! {

/// What decompressing a raw snappy buffer yields: the decompressed bytes,
/// or nothing when the input is not a valid snappy buffer.  The outcome is
/// a function of the compressed bytes alone.
pub uninterp spec fn inflated(src: Seq<u8>) -> Option<Seq<u8>>;

/// Relies on snap's raw `Decoder::decompress_vec`: decompression of a raw
/// snappy buffer, a function of the input bytes alone; malformed input is
/// reported as an error and never panics.
#[verifier::external_body]
fn snappy_decompress(src: &[u8]) -> (r: Option<Vec<u8>>)
    ensures
        r is Some <==> inflated(src@) is Some,
        r is Some ==> r.unwrap()@ == inflated(src@).unwrap(),
{
    snap::raw::Decoder::new().decompress_vec(src).ok()
}

/// Decompress `src` into `dest`, growing `dest` as needed, and return the
/// logical length of the decompressed bytes.  Fails with `CorruptChunk` if
/// and only if `src` is not a valid snappy buffer.
pub fn decompress_into(src: &[u8], dest: &mut Vec<u8>) -> (r: Result<usize, Error>)
    ensures
        match r {
            Ok(len) => {
                &&& inflated(src@) is Some
                &&& len == inflated(src@).unwrap().len()
                &&& final(dest)@.len() >= len
                &&& final(dest)@.take(len as int) == inflated(src@).unwrap()
            },
            Err(e) => {
                &&& e is CorruptChunk
                &&& inflated(src@) is None
                &&& final(dest)@ == old(dest)@
            },
        },
{
    let v = match snappy_decompress(src) {
        Some(v) => v,
        None => {
            return Err(Error::CorruptChunk);
        },
    };
    let len = v.len();
    if dest.len() < len {
        dest.resize(len, 0u8);
    }
    let mut i: usize = 0;
    while i < len
        invariant
            i <= len,
            len == v@.len(),
            dest@.len() >= len,
            forall|j: int| 0 <= j < i ==> dest@[j] == v@[j],
        decreases len - i,
    {
        dest.set(i, v[i]);
        i = i + 1;
    }
    proof {
        assert(dest@.take(len as int) =~= v@);
    }
    Ok(len)
}

} // verus!
