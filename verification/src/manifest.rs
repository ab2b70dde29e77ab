//! The snapshot manifest: the top-level descriptor of a snapshot.
//!
//! A manifest lists the content hashes of the compressed state and block
//! chunks, the state root the rebuilt account state must reach, the highest
//! block the snapshot covers, and opaque engine-specific header bytes that
//! are relayed unchanged to the block rebuilder.
//!
//! The manifest is persisted as the `MANIFEST` file of a loose snapshot
//! directory.  [`encode_manifest`] and [`decode_manifest`] implement that
//! file format, and [`lemma_manifest_round_trip`] shows that whatever the
//! writer persists, a reader recovers exactly.

use vstd::prelude::*;
use vstd::bytes::{spec_u64_to_le_bytes, spec_u64_from_le_bytes, lemma_auto_spec_u64_to_from_le_bytes};
use crate::hash::Hash256;
use crate::wire::{hash_from_slice, bytes_from_slice, read_u64, push_u64};

verus! {

/// The restoration contract supplied by the snapshot producer.
pub struct ManifestData {
    /// Content hashes of the compressed state chunks, in producer order.
    pub state_hashes: Vec<Hash256>,
    /// Content hashes of the compressed block chunks, in producer order.
    pub block_hashes: Vec<Hash256>,
    /// The root the rebuilt account state must equal.
    pub state_root: Hash256,
    /// The highest block in the snapshot.
    pub block_number: u64,
    /// Opaque engine-specific header bytes, relayed to the block rebuilder.
    pub engine_data: Vec<u8>,
}

/// The mathematical content of a manifest.
pub struct ManifestModel {
    pub state_hashes: Seq<Seq<u8>>,
    pub block_hashes: Seq<Seq<u8>>,
    pub state_root: Seq<u8>,
    pub block_number: u64,
    pub engine_data: Seq<u8>,
}

impl View for ManifestData {
    type V = ManifestModel;

    open spec fn view(&self) -> ManifestModel {
        ManifestModel {
            state_hashes: self.state_hashes@.map_values(|h: Hash256| h@),
            block_hashes: self.block_hashes@.map_values(|h: Hash256| h@),
            state_root: self.state_root@,
            block_number: self.block_number,
            engine_data: self.engine_data@,
        }
    }
}

/// A manifest whose encoding is well defined: every hash is 32 bytes and
/// the sequence lengths fit the length prefixes of the file format.  Every
/// `ManifestData` value satisfies this by construction.
pub open spec fn manifest_wf(m: ManifestModel) -> bool {
    &&& forall|i: int| 0 <= i < m.state_hashes.len() ==> (#[trigger] m.state_hashes[i]).len() == 32
    &&& forall|i: int| 0 <= i < m.block_hashes.len() ==> (#[trigger] m.block_hashes[i]).len() == 32
    &&& m.state_root.len() == 32
    &&& m.state_hashes.len() < 0x1_0000_0000_0000_0000
    &&& m.block_hashes.len() < 0x1_0000_0000_0000_0000
    &&& m.engine_data.len() < 0x1_0000_0000_0000_0000
}

/// Record that a manifest held in memory is well formed: its sequences fit
/// in memory, so their lengths fit the format's length prefixes.
pub fn note_manifest_wf(m: &ManifestData)
    ensures
        manifest_wf(m@),
{
    let ns = m.state_hashes.len();
    let nb = m.block_hashes.len();
    let ne = m.engine_data.len();
    proof {
        assert(forall|i: int| 0 <= i < m.state_hashes@.len()
            ==> (#[trigger] m@.state_hashes[i]).len() == 32);
        assert(forall|i: int| 0 <= i < m.block_hashes@.len()
            ==> (#[trigger] m@.block_hashes[i]).len() == 32);
    }
}

/// The concatenation of a sequence of hashes.
pub open spec fn concat_hashes(hs: Seq<Seq<u8>>) -> Seq<u8>
    decreases hs.len(),
{
    if hs.len() == 0 {
        Seq::empty()
    } else {
        hs[0] + concat_hashes(hs.skip(1))
    }
}

pub proof fn lemma_concat_hashes_len(hs: Seq<Seq<u8>>)
    requires
        forall|i: int| 0 <= i < hs.len() ==> (#[trigger] hs[i]).len() == 32,
    ensures
        concat_hashes(hs).len() == 32 * hs.len(),
    decreases hs.len(),
{
    if hs.len() > 0 {
        assert(forall|i: int| 0 <= i < hs.skip(1).len()
            ==> (#[trigger] hs.skip(1)[i]).len() == 32);
        lemma_concat_hashes_len(hs.skip(1));
    }
}

pub proof fn lemma_concat_hashes_index(hs: Seq<Seq<u8>>, i: int)
    requires
        forall|j: int| 0 <= j < hs.len() ==> (#[trigger] hs[j]).len() == 32,
        0 <= i < hs.len(),
    ensures
        concat_hashes(hs).subrange(32 * i, 32 * i + 32) == hs[i],
    decreases i,
{
    lemma_concat_hashes_len(hs);
    if i == 0 {
        assert(concat_hashes(hs).subrange(0, 32) =~= hs[0]);
    } else {
        assert(forall|j: int| 0 <= j < hs.skip(1).len()
            ==> (#[trigger] hs.skip(1)[j]).len() == 32);
        lemma_concat_hashes_index(hs.skip(1), i - 1);
        lemma_concat_hashes_len(hs.skip(1));
        assert(concat_hashes(hs).subrange(32 * i, 32 * i + 32)
            =~= concat_hashes(hs.skip(1)).subrange(32 * (i - 1), 32 * (i - 1) + 32));
        assert(hs.skip(1)[i - 1] == hs[i]);
    }
}

proof fn lemma_concat_hashes_push(hs: Seq<Seq<u8>>, h: Seq<u8>)
    ensures
        concat_hashes(hs.push(h)) == concat_hashes(hs) + h,
    decreases hs.len(),
{
    if hs.len() == 0 {
        assert(hs.push(h)[0] == h);
        assert(hs.push(h).skip(1) =~= Seq::<Seq<u8>>::empty());
        assert(concat_hashes(hs.push(h)) == h + concat_hashes(Seq::<Seq<u8>>::empty()));
        assert(concat_hashes(Seq::<Seq<u8>>::empty()) == Seq::<u8>::empty());
        assert(concat_hashes(hs) == Seq::<u8>::empty());
        assert(concat_hashes(hs.push(h)) =~= concat_hashes(hs) + h);
    } else {
        assert(hs.push(h)[0] == hs[0]);
        assert(hs.push(h).skip(1) =~= hs.skip(1).push(h));
        lemma_concat_hashes_push(hs.skip(1), h);
        assert(concat_hashes(hs.push(h)) == hs[0] + (concat_hashes(hs.skip(1)) + h));
        assert(concat_hashes(hs) == hs[0] + concat_hashes(hs.skip(1)));
        assert(concat_hashes(hs.push(h)) =~= concat_hashes(hs) + h);
    }
}

/// The `MANIFEST` file encoding of a manifest: a length-prefixed list of
/// state hashes, the same for block hashes, the state root, the block
/// number, and the length-prefixed engine data.  All integers are
/// little-endian.
pub open spec fn spec_encode_manifest(m: ManifestModel) -> Seq<u8> {
    spec_u64_to_le_bytes(m.state_hashes.len() as u64) + concat_hashes(m.state_hashes)
        + spec_u64_to_le_bytes(m.block_hashes.len() as u64) + concat_hashes(m.block_hashes)
        + m.state_root
        + spec_u64_to_le_bytes(m.block_number)
        + spec_u64_to_le_bytes(m.engine_data.len() as u64) + m.engine_data
}

/// What decoding a `MANIFEST` file yields: the unique manifest the bytes
/// encode, or nothing when the bytes are malformed.
pub open spec fn spec_decode_manifest(b: Seq<u8>) -> Option<ManifestModel> {
    if b.len() < 8 {
        None
    } else {
        let ns = spec_u64_from_le_bytes(b.subrange(0, 8)) as int;
        if b.len() < 8 + 32 * ns + 8 {
            None
        } else {
            let sh = Seq::new(ns as nat, |i: int| b.subrange(8 + 32 * i, 8 + 32 * i + 32));
            let off2 = 8 + 32 * ns;
            let nb = spec_u64_from_le_bytes(b.subrange(off2, off2 + 8)) as int;
            let off3 = off2 + 8;
            if b.len() < off3 + 32 * nb + 48 {
                None
            } else {
                let bh = Seq::new(nb as nat, |i: int| b.subrange(off3 + 32 * i, off3 + 32 * i + 32));
                let off4 = off3 + 32 * nb;
                let root = b.subrange(off4, off4 + 32);
                let bn = spec_u64_from_le_bytes(b.subrange(off4 + 32, off4 + 40));
                let el = spec_u64_from_le_bytes(b.subrange(off4 + 40, off4 + 48)) as int;
                let off5 = off4 + 48;
                if b.len() != off5 + el {
                    None
                } else {
                    Some(ManifestModel {
                        state_hashes: sh,
                        block_hashes: bh,
                        state_root: root,
                        block_number: bn,
                        engine_data: b.subrange(off5, off5 + el),
                    })
                }
            }
        }
    }
}

/// A reader recovers exactly the manifest a writer persisted.
pub proof fn lemma_manifest_round_trip(m: ManifestModel)
    requires
        manifest_wf(m),
    ensures
        spec_decode_manifest(spec_encode_manifest(m)) == Some(m),
{
    lemma_auto_spec_u64_to_from_le_bytes();
    lemma_concat_hashes_len(m.state_hashes);
    lemma_concat_hashes_len(m.block_hashes);
    let b = spec_encode_manifest(m);
    let ns = m.state_hashes.len() as int;
    let nb = m.block_hashes.len() as int;
    let el = m.engine_data.len() as int;
    let off2 = 8 + 32 * ns;
    let off3 = off2 + 8;
    let off4 = off3 + 32 * nb;
    let off5 = off4 + 48;
    assert(b.len() == off5 + el);
    assert(b.subrange(0, 8) =~= spec_u64_to_le_bytes(ns as u64));
    assert(b.subrange(off2, off2 + 8) =~= spec_u64_to_le_bytes(nb as u64));
    assert(b.subrange(off4, off4 + 32) =~= m.state_root);
    assert(b.subrange(off4 + 32, off4 + 40) =~= spec_u64_to_le_bytes(m.block_number));
    assert(b.subrange(off4 + 40, off4 + 48) =~= spec_u64_to_le_bytes(el as u64));
    assert(b.subrange(off5, off5 + el) =~= m.engine_data);
    assert(b.subrange(8, 8 + 32 * ns) =~= concat_hashes(m.state_hashes));
    assert(b.subrange(off3, off3 + 32 * nb) =~= concat_hashes(m.block_hashes));
    assert forall|i: int| 0 <= i < ns implies b.subrange(8 + 32 * i, 8 + 32 * i + 32)
        == m.state_hashes[i] by {
        lemma_concat_hashes_index(m.state_hashes, i);
        assert(b.subrange(8 + 32 * i, 8 + 32 * i + 32)
            =~= concat_hashes(m.state_hashes).subrange(32 * i, 32 * i + 32));
    }
    assert forall|i: int| 0 <= i < nb implies b.subrange(off3 + 32 * i, off3 + 32 * i + 32)
        == m.block_hashes[i] by {
        lemma_concat_hashes_index(m.block_hashes, i);
        assert(b.subrange(off3 + 32 * i, off3 + 32 * i + 32)
            =~= concat_hashes(m.block_hashes).subrange(32 * i, 32 * i + 32));
    }
    let d = spec_decode_manifest(b).unwrap();
    assert(d.state_hashes =~= m.state_hashes);
    assert(d.block_hashes =~= m.block_hashes);
    assert(spec_decode_manifest(b) == Some(m));
}

impl ManifestData {
    /// A deep copy; the manifest is handed out by value to observers.
    pub fn duplicate(&self) -> (r: ManifestData)
        ensures
            r@ == self@,
    {
        let mut sh: Vec<Hash256> = Vec::new();
        let mut i: usize = 0;
        while i < self.state_hashes.len()
            invariant
                i <= self.state_hashes@.len(),
                sh@ == self.state_hashes@.take(i as int),
            decreases self.state_hashes@.len() - i,
        {
            sh.push(self.state_hashes[i]);
            proof {
                assert(self.state_hashes@.take(i as int).push(self.state_hashes@[i as int])
                    =~= self.state_hashes@.take(i + 1));
            }
            i = i + 1;
        }
        let mut bh: Vec<Hash256> = Vec::new();
        let mut j: usize = 0;
        while j < self.block_hashes.len()
            invariant
                j <= self.block_hashes@.len(),
                bh@ == self.block_hashes@.take(j as int),
            decreases self.block_hashes@.len() - j,
        {
            bh.push(self.block_hashes[j]);
            proof {
                assert(self.block_hashes@.take(j as int).push(self.block_hashes@[j as int])
                    =~= self.block_hashes@.take(j + 1));
            }
            j = j + 1;
        }
        let mut ed: Vec<u8> = Vec::new();
        let mut k: usize = 0;
        while k < self.engine_data.len()
            invariant
                k <= self.engine_data@.len(),
                ed@ == self.engine_data@.take(k as int),
            decreases self.engine_data@.len() - k,
        {
            ed.push(self.engine_data[k]);
            proof {
                assert(self.engine_data@.take(k as int).push(self.engine_data@[k as int])
                    =~= self.engine_data@.take(k + 1));
            }
            k = k + 1;
        }
        proof {
            assert(self.state_hashes@.take(self.state_hashes@.len() as int) =~= self.state_hashes@);
            assert(self.block_hashes@.take(self.block_hashes@.len() as int) =~= self.block_hashes@);
            assert(self.engine_data@.take(self.engine_data@.len() as int) =~= self.engine_data@);
        }
        let r = ManifestData {
            state_hashes: sh,
            block_hashes: bh,
            state_root: self.state_root,
            block_number: self.block_number,
            engine_data: ed,
        };
        proof {
            assert(r@.state_hashes =~= self@.state_hashes);
            assert(r@.block_hashes =~= self@.block_hashes);
        }
        r
    }
}

/// Serialize a manifest into the bytes of its `MANIFEST` file.
pub fn encode_manifest(m: &ManifestData) -> (r: Vec<u8>)
    ensures
        r@ == spec_encode_manifest(m@),
{
    let mut out: Vec<u8> = Vec::new();
    push_u64(&mut out, m.state_hashes.len() as u64);
    push_hashes(&mut out, &m.state_hashes);
    push_u64(&mut out, m.block_hashes.len() as u64);
    push_hashes(&mut out, &m.block_hashes);
    let mut root = hash_to_vec(&m.state_root);
    out.append(&mut root);
    push_u64(&mut out, m.block_number);
    push_u64(&mut out, m.engine_data.len() as u64);
    let mut ed: Vec<u8> = Vec::new();
    let mut k: usize = 0;
    while k < m.engine_data.len()
        invariant
            k <= m.engine_data@.len(),
            ed@ == m.engine_data@.take(k as int),
        decreases m.engine_data@.len() - k,
    {
        ed.push(m.engine_data[k]);
        proof {
            assert(m.engine_data@.take(k as int).push(m.engine_data@[k as int])
                =~= m.engine_data@.take(k + 1));
        }
        k = k + 1;
    }
    proof {
        assert(m.engine_data@.take(m.engine_data@.len() as int) =~= m.engine_data@);
    }
    out.append(&mut ed);
    proof {
        assert(out@ =~= spec_encode_manifest(m@));
    }
    out
}

/// The bytes of a hash, as a fresh vector.
pub fn hash_to_vec(h: &Hash256) -> (r: Vec<u8>)
    ensures
        r@ == h@,
{
    let mut out: Vec<u8> = Vec::new();
    let mut j: usize = 0;
    while j < 32
        invariant
            j <= 32,
            out@ == h.bytes@.take(j as int),
        decreases 32 - j,
    {
        out.push(h.bytes[j]);
        proof {
            assert(h.bytes@.take(j as int).push(h.bytes@[j as int]) =~= h.bytes@.take(j + 1));
        }
        j = j + 1;
    }
    proof {
        assert(h.bytes@.take(32) =~= h.bytes@);
    }
    out
}

/// Append the concatenation of `hs` to `out`.
fn push_hashes(out: &mut Vec<u8>, hs: &Vec<Hash256>)
    ensures
        final(out)@ == old(out)@ + concat_hashes(hs@.map_values(|h: Hash256| h@)),
{
    let ghost base = out@;
    let ghost views = hs@.map_values(|h: Hash256| h@);
    let mut i: usize = 0;
    while i < hs.len()
        invariant
            i <= hs@.len(),
            views == hs@.map_values(|h: Hash256| h@),
            out@ == base + concat_hashes(views.take(i as int)),
        decreases hs@.len() - i,
    {
        let mut hv = hash_to_vec(&hs[i]);
        out.append(&mut hv);
        proof {
            lemma_concat_hashes_push(views.take(i as int), views[i as int]);
            assert(views.take(i as int).push(views[i as int]) =~= views.take(i + 1));
        }
        i = i + 1;
    }
    proof {
        assert(views.take(views.len() as int) =~= views);
    }
}

/// Parse the bytes of a `MANIFEST` file.  Returns the manifest the bytes
/// encode, and nothing if and only if they are malformed.
pub fn decode_manifest(b: &[u8]) -> (r: Option<ManifestData>)
    ensures
        r is Some <==> spec_decode_manifest(b@) is Some,
        r is Some ==> r.unwrap()@ == spec_decode_manifest(b@).unwrap(),
{
    proof {
        lemma_auto_spec_u64_to_from_le_bytes();
    }
    let blen = b.len();
    if blen < 8 {
        return None;
    }
    let ns64 = read_u64(b, 0);
    if ns64 > ((blen - 8) / 32) as u64 {
        return None;
    }
    let ns = ns64 as usize;
    let off2 = 8 + 32 * ns;
    if blen - off2 < 8 {
        return None;
    }
    let state_hashes = read_hashes(b, 8, ns);
    let nb64 = read_u64(b, off2);
    let off3 = off2 + 8;
    if nb64 > ((blen - off3) / 32) as u64 {
        return None;
    }
    let nb = nb64 as usize;
    let off4 = off3 + 32 * nb;
    if blen - off4 < 48 {
        return None;
    }
    let block_hashes = read_hashes(b, off3, nb);
    let root = hash_from_slice(b, off4);
    let bn = read_u64(b, off4 + 32);
    let el64 = read_u64(b, off4 + 40);
    let off5 = off4 + 48;
    if el64 != ((blen - off5) as u64) {
        return None;
    }
    let el = el64 as usize;
    let engine_data = bytes_from_slice(b, off5, el);
    let m = ManifestData {
        state_hashes,
        block_hashes,
        state_root: root,
        block_number: bn,
        engine_data,
    };
    proof {
        let d = spec_decode_manifest(b@).unwrap();
        assert(m@.state_hashes =~= d.state_hashes);
        assert(m@.block_hashes =~= d.block_hashes);
    }
    Some(m)
}

/// Read `n` consecutive 32-byte hashes starting at `off`.
fn read_hashes(b: &[u8], off: usize, n: usize) -> (r: Vec<Hash256>)
    requires
        off + 32 * n <= b@.len(),
    ensures
        r@.len() == n,
        forall|i: int| 0 <= i < n
            ==> (#[trigger] r@[i])@ == b@.subrange(off + 32 * i, off + 32 * i + 32),
    decreases n,
{
    let blen = b.len();
    let mut r: Vec<Hash256> = Vec::new();
    let mut i: usize = 0;
    while i < n
        invariant
            i <= n,
            blen == b@.len(),
            off + 32 * n <= blen,
            r@.len() == i,
            forall|j: int| 0 <= j < i
                ==> (#[trigger] r@[j])@ == b@.subrange(off + 32 * j, off + 32 * j + 32),
        decreases n - i,
    {
        let h = hash_from_slice(b, off + 32 * i);
        r.push(h);
        i = i + 1;
    }
    r
}

} // verus!
