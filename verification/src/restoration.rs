//! One restoration attempt: the manifest, the two sets of chunks still
//! expected, both rebuilders, the writer for the snapshot being persisted,
//! and the state root the rebuilt account state must reach.
//!
//! Feeding is content-addressed: a chunk is accepted if and only if its
//! hash is still expected; re-feeding an accepted chunk and feeding an
//! unknown chunk are silent no-ops.  Every transition is stated as a
//! mathematical function of the previous state, so the idempotence and
//! no-op laws are proved, not just tested.

use vstd::prelude::*;
use crate::chunks::{parse_state_entries, parse_block_run};
use crate::codec::{inflated, decompress_into};
use crate::disk::{DirFiles, FileModel, dir_wf, dir_get, dir_has, dir_put, lemma_dir_put};
use crate::engine::Engine;
use crate::errors::Error;
use crate::hash::{Hash256, hex_of};
use crate::loose::{LooseWriter, manifest_name};
use crate::manifest::spec_encode_manifest;
use crate::manifest::{ManifestData, ManifestModel, manifest_wf};
use crate::rebuild::{StateRebuilder, BlockRebuilder, FedChunkModel, RunModel, state_wf, blocks_wf,
    chunk_fed, runs_insert, run_linked, run_sealed, state_root_of, state_missing_code, canon_state,
    runs_glued, runs_end_at};

verus! {

/// Whether a hash occurs in a sequence of hashes.
pub open spec fn contains_hash(hs: Seq<Seq<u8>>, h: Seq<u8>) -> bool {
    exists|i: int| 0 <= i < hs.len() && hs[i] == h
}

/// No hash occurs twice.
pub open spec fn distinct_hashes(hs: Seq<Seq<u8>>) -> bool {
    forall|i: int, j: int| 0 <= i < j < hs.len() ==> hs[i] != hs[j]
}

/// Remove the one occurrence of `h`.
pub open spec fn remove_hash(hs: Seq<Seq<u8>>, h: Seq<u8>) -> Seq<Seq<u8>> {
    hs.remove(choose|i: int| 0 <= i < hs.len() && hs[i] == h)
}

/// The expected hashes, deduplicated in first-occurrence order.
pub open spec fn dedup_hashes(hs: Seq<Seq<u8>>) -> Seq<Seq<u8>>
    decreases hs.len(),
{
    if hs.len() == 0 {
        Seq::empty()
    } else {
        let d = dedup_hashes(hs.drop_last());
        if contains_hash(d, hs.last()) {
            d
        } else {
            d.push(hs.last())
        }
    }
}

pub proof fn lemma_dedup_hashes(hs: Seq<Seq<u8>>)
    ensures
        distinct_hashes(dedup_hashes(hs)),
        dedup_hashes(hs).len() <= hs.len(),
        forall|h: Seq<u8>| #[trigger] contains_hash(dedup_hashes(hs), h) <==> contains_hash(hs, h),
    decreases hs.len(),
{
    if hs.len() > 0 {
        lemma_dedup_hashes(hs.drop_last());
        let d = dedup_hashes(hs.drop_last());
        let dd = dedup_hashes(hs);
        if !contains_hash(d, hs.last()) {
            assert forall|i: int, j: int| 0 <= i < j < dd.len() implies dd[i] != dd[j] by {
                if j < d.len() {
                    assert(dd[i] == d[i] && dd[j] == d[j]);
                } else {
                    assert(dd[j] == hs.last());
                    assert(dd[i] == d[i]);
                    if d[i] == hs.last() {
                        assert(contains_hash(d, hs.last()));
                    }
                }
            }
        }
        assert forall|h: Seq<u8>| #[trigger] contains_hash(dd, h) <==> contains_hash(hs, h) by {
            if contains_hash(dd, h) {
                let i = choose|i: int| 0 <= i < dd.len() && dd[i] == h;
                if i < d.len() {
                    assert(d[i] == h);
                    assert(contains_hash(d, h));
                    assert(contains_hash(hs.drop_last(), h));
                    let j = choose|j: int| 0 <= j < hs.drop_last().len() && hs.drop_last()[j] == h;
                    assert(hs[j] == h);
                } else {
                    assert(dd[i] == hs.last());
                    assert(hs[hs.len() - 1] == h);
                }
            }
            if contains_hash(hs, h) {
                let i = choose|i: int| 0 <= i < hs.len() && hs[i] == h;
                if i < hs.len() - 1 {
                    assert(hs.drop_last()[i] == h);
                    assert(contains_hash(hs.drop_last(), h));
                    assert(contains_hash(d, h));
                    let j = choose|j: int| 0 <= j < d.len() && d[j] == h;
                    if contains_hash(d, hs.last()) {
                        assert(dd[j] == h);
                    } else {
                        assert(dd[j] == d[j]);
                        assert(dd[j] == h);
                    }
                    assert(contains_hash(dd, h));
                } else {
                    assert(hs.last() == h);
                    if contains_hash(d, hs.last()) {
                        let j = choose|j: int| 0 <= j < d.len() && d[j] == hs.last();
                        assert(dd[j] == h);
                    } else {
                        assert(dd[dd.len() - 1] == h);
                    }
                    assert(contains_hash(dd, h));
                }
            }
        }
    }
}

pub proof fn lemma_remove_hash(hs: Seq<Seq<u8>>, h: Seq<u8>, i: int)
    requires
        distinct_hashes(hs),
        0 <= i < hs.len(),
        hs[i] == h,
    ensures
        remove_hash(hs, h) == hs.remove(i),
        distinct_hashes(hs.remove(i)),
        !contains_hash(hs.remove(i), h),
        forall|g: Seq<u8>| g != h ==> (#[trigger] contains_hash(hs.remove(i), g) <==> contains_hash(
            hs,
            g,
        )),
{
    let j = choose|j: int| 0 <= j < hs.len() && hs[j] == h;
    if i != j {
        assert(hs[i] != hs[j]);
    }
    let out = hs.remove(i);
    assert(forall|k: int| 0 <= k < i ==> out[k] == hs[k]);
    assert(forall|k: int| i <= k < out.len() ==> out[k] == hs[k + 1]);
    assert forall|k: int| 0 <= k < out.len() implies out[k] != h by {
        if k < i {
            assert(hs[k] != hs[i]);
        } else {
            assert(hs[k + 1] != hs[i]);
        }
    }
    assert forall|g: Seq<u8>| g != h implies (#[trigger] contains_hash(out, g) <==> contains_hash(
        hs,
        g,
    )) by {
        if contains_hash(out, g) {
            let k = choose|k: int| 0 <= k < out.len() && out[k] == g;
            if k < i {
                assert(hs[k] == g);
            } else {
                assert(hs[k + 1] == g);
            }
        }
        if contains_hash(hs, g) {
            let k = choose|k: int| 0 <= k < hs.len() && hs[k] == g;
            if k < i {
                assert(out[k] == g);
            } else {
                assert(k > i);
                assert(out[k - 1] == g);
            }
        }
    }
}

/// The mathematical state of one restoration attempt.
pub struct RestorationModel {
    pub manifest: ManifestModel,
    pub state_left: Seq<Seq<u8>>,
    pub block_left: Seq<Seq<u8>>,
    pub state: Seq<FedChunkModel>,
    pub blocks: Seq<RunModel>,
    pub blocks_target: u64,
    pub writer: Seq<FileModel>,
    pub root: Seq<u8>,
}

/// A chunk hash the restoration has accepted.
pub open spec fn accepted_state(rm: RestorationModel, h: Seq<u8>) -> bool {
    contains_hash(rm.manifest.state_hashes, h) && !contains_hash(rm.state_left, h)
}

/// A block chunk hash the restoration has accepted.
pub open spec fn accepted_block(rm: RestorationModel, h: Seq<u8>) -> bool {
    contains_hash(rm.manifest.block_hashes, h) && !contains_hash(rm.block_left, h)
}

/// The invariant of a live restoration: the chunks still expected are
/// drawn from the manifest, each accepted state chunk was handed to the
/// state rebuilder exactly once, and the writer holds exactly one file per
/// accepted chunk, named by the chunk's hash.
pub open spec fn rest_wf(rm: RestorationModel) -> bool {
    &&& manifest_wf(rm.manifest)
    &&& rm.root == rm.manifest.state_root
    &&& rm.blocks_target == rm.manifest.block_number
    &&& distinct_hashes(rm.state_left)
    &&& distinct_hashes(rm.block_left)
    &&& forall|i: int| 0 <= i < rm.state_left.len() ==> contains_hash(
        rm.manifest.state_hashes,
        #[trigger] rm.state_left[i],
    )
    &&& forall|i: int| 0 <= i < rm.block_left.len() ==> contains_hash(
        rm.manifest.block_hashes,
        #[trigger] rm.block_left[i],
    )
    &&& state_wf(rm.state)
    &&& blocks_wf(rm.blocks)
    &&& forall|h: Seq<u8>| #[trigger] chunk_fed(rm.state, h) <==> accepted_state(rm, h)
    &&& dir_wf(rm.writer)
    &&& forall|h: Seq<u8>| (accepted_state(rm, h) || accepted_block(rm, h)) ==> #[trigger] dir_has(
        rm.writer,
        hex_of(h),
    )
    &&& forall|n: Seq<u8>| #[trigger] dir_has(rm.writer, n) ==> exists|h: Seq<u8>|
        (accepted_state(rm, h) || accepted_block(rm, h)) && n == hex_of(h)
}

/// The fresh restoration a manifest opens.
pub open spec fn rest_init(m: ManifestModel) -> RestorationModel {
    RestorationModel {
        manifest: m,
        state_left: dedup_hashes(m.state_hashes),
        block_left: dedup_hashes(m.block_hashes),
        state: Seq::empty(),
        blocks: Seq::empty(),
        blocks_target: m.block_number,
        writer: Seq::empty(),
        root: m.state_root,
    }
}

/// How one feed ended.
pub enum FeedOutcome {
    /// The chunk was expected: both the rebuilder and the writer saw it.
    Accepted,
    /// The hash was not expected: the feed was a no-op.
    Ignored,
    /// The chunk does not decompress or its payload is malformed.
    Corrupt,
    /// The engine rejected a block's seal.
    BadSeal,
    /// Persisting the chunk file failed.
    IoFailed,
}

/// What feeding a state chunk does: the next state and the outcome.
pub open spec fn rest_feed_state(rm: RestorationModel, h: Seq<u8>, c: Seq<u8>, io_fault: bool) -> (
    RestorationModel,
    FeedOutcome,
) {
    if !contains_hash(rm.state_left, h) {
        (rm, FeedOutcome::Ignored)
    } else {
        let rm1 = RestorationModel { state_left: remove_hash(rm.state_left, h), ..rm };
        match inflated(c) {
            None => (rm1, FeedOutcome::Corrupt),
            Some(d) => match parse_state_entries(d) {
                None => (rm1, FeedOutcome::Corrupt),
                Some(es) => {
                    let rm2 = RestorationModel {
                        state: rm1.state.push(FedChunkModel { hash: h, entries: es }),
                        ..rm1
                    };
                    if io_fault {
                        (rm2, FeedOutcome::IoFailed)
                    } else {
                        (
                            RestorationModel {
                                writer: dir_put(rm2.writer, hex_of(h), c),
                                ..rm2
                            },
                            FeedOutcome::Accepted,
                        )
                    }
                },
            },
        }
    }
}

/// What feeding a block chunk does: the next state and the outcome.
pub open spec fn rest_feed_blocks<E: Engine>(
    engine: E,
    rm: RestorationModel,
    h: Seq<u8>,
    c: Seq<u8>,
    io_fault: bool,
) -> (RestorationModel, FeedOutcome) {
    if !contains_hash(rm.block_left, h) {
        (rm, FeedOutcome::Ignored)
    } else {
        let rm1 = RestorationModel { block_left: remove_hash(rm.block_left, h), ..rm };
        match inflated(c) {
            None => (rm1, FeedOutcome::Corrupt),
            Some(d) => match parse_block_run(d) {
                None => (rm1, FeedOutcome::Corrupt),
                Some((first, bs)) => {
                    if first + bs.len() - 1 > u64::MAX || !run_linked(bs) {
                        (rm1, FeedOutcome::Corrupt)
                    } else if !run_sealed(engine, bs) {
                        (rm1, FeedOutcome::BadSeal)
                    } else {
                        let rm2 = RestorationModel {
                            blocks: runs_insert(rm1.blocks, RunModel { first, blocks: bs }),
                            ..rm1
                        };
                        if io_fault {
                            (rm2, FeedOutcome::IoFailed)
                        } else {
                            (
                                RestorationModel {
                                    writer: dir_put(rm2.writer, hex_of(h), c),
                                    ..rm2
                                },
                                FeedOutcome::Accepted,
                            )
                        }
                    }
                },
            },
        }
    }
}

/// One restoration attempt.
pub struct Restoration {
    pub manifest: ManifestData,
    pub state_chunks_left: Vec<Hash256>,
    pub block_chunks_left: Vec<Hash256>,
    pub state: StateRebuilder,
    pub blocks: BlockRebuilder,
    pub writer: LooseWriter,
    pub snappy_buffer: Vec<u8>,
    pub final_state_root: Hash256,
}

impl View for Restoration {
    type V = RestorationModel;

    open spec fn view(&self) -> RestorationModel {
        RestorationModel {
            manifest: self.manifest@,
            state_left: self.state_chunks_left@.map_values(|h: Hash256| h@),
            block_left: self.block_chunks_left@.map_values(|h: Hash256| h@),
            state: self.state@,
            blocks: self.blocks@,
            blocks_target: self.blocks.target,
            writer: self.writer@,
            root: self.final_state_root@,
        }
    }
}

/// Whether the list holds this hash.
fn list_has(v: &Vec<Hash256>, h: &Hash256) -> (r: bool)
    ensures
        r == contains_hash(v@.map_values(|x: Hash256| x@), h@),
{
    let ghost hv = v@.map_values(|x: Hash256| x@);
    let n = v.len();
    let mut i: usize = 0;
    while i < n
        invariant
            i <= n,
            n == v@.len(),
            hv == v@.map_values(|x: Hash256| x@),
            forall|j: int| 0 <= j < i ==> hv[j] != h@,
        decreases n - i,
    {
        if v[i] == *h {
            proof {
                assert(hv[i as int] == h@);
            }
            return true;
        }
        i = i + 1;
    }
    proof {
        assert(!contains_hash(hv, h@));
    }
    false
}

/// Copy the expected hashes out of a manifest list, dropping duplicates.
fn dedup_list(hs: &Vec<Hash256>) -> (r: Vec<Hash256>)
    ensures
        r@.map_values(|h: Hash256| h@) == dedup_hashes(hs@.map_values(|h: Hash256| h@)),
{
    let ghost hv = hs@.map_values(|h: Hash256| h@);
    let mut r: Vec<Hash256> = Vec::new();
    let n = hs.len();
    let mut i: usize = 0;
    while i < n
        invariant
            i <= n,
            n == hs@.len(),
            hv == hs@.map_values(|h: Hash256| h@),
            r@.map_values(|h: Hash256| h@) == dedup_hashes(hv.take(i as int)),
        decreases n - i,
    {
        let ghost pre = r@.map_values(|h: Hash256| h@);
        let seen = list_has(&r, &hs[i]);
        proof {
            assert(hv.take(i + 1).drop_last() =~= hv.take(i as int));
            assert(hv.take(i + 1).last() == hv[i as int]);
        }
        if !seen {
            r.push(hs[i]);
            proof {
                assert(r@.map_values(|h: Hash256| h@) =~= pre.push(hv[i as int]));
            }
        }
        i = i + 1;
    }
    proof {
        assert(hv.take(n as int) =~= hv);
    }
    r
}

impl Restoration {
    /// Open a restoration attempt: the expected chunk sets come from the
    /// manifest, both rebuilders start empty over a fresh staging database
    /// seeded with `genesis`, and `writer` is the (empty) writer over the
    /// fresh `restoration/temp/` directory.
    pub fn new(manifest: ManifestData, genesis: Vec<u8>, writer: LooseWriter) -> (r: Restoration)
        requires
            dir_wf(writer@),
            writer@.len() == 0,
        ensures
            r@ == rest_init(manifest@),
            rest_wf(r@),
            r.snappy_buffer@.len() == 0,
    {
        crate::manifest::note_manifest_wf(&manifest);
        let state_chunks_left = dedup_list(&manifest.state_hashes);
        let block_chunks_left = dedup_list(&manifest.block_hashes);
        let state = StateRebuilder::new();
        let blocks = BlockRebuilder::new(genesis, manifest.block_number);
        let final_state_root = manifest.state_root;
        let r = Restoration {
            manifest,
            state_chunks_left,
            block_chunks_left,
            state,
            blocks,
            writer,
            snappy_buffer: Vec::new(),
            final_state_root,
        };
        proof {
            assert(r@.writer =~= Seq::<FileModel>::empty());
            assert(r@.state =~= Seq::<FedChunkModel>::empty());
            assert(r@.blocks =~= Seq::<RunModel>::empty());
            assert(r@ == rest_init(r.manifest@));
            lemma_dedup_hashes(r.manifest@.state_hashes);
            lemma_dedup_hashes(r.manifest@.block_hashes);
            assert forall|i: int| 0 <= i < r@.state_left.len() implies contains_hash(
                r@.manifest.state_hashes,
                #[trigger] r@.state_left[i],
            ) by {
                assert(contains_hash(dedup_hashes(r@.manifest.state_hashes), r@.state_left[i]));
            }
            assert forall|i: int| 0 <= i < r@.block_left.len() implies contains_hash(
                r@.manifest.block_hashes,
                #[trigger] r@.block_left[i],
            ) by {
                assert(contains_hash(dedup_hashes(r@.manifest.block_hashes), r@.block_left[i]));
            }
            assert forall|h: Seq<u8>| #[trigger] chunk_fed(r@.state, h) <==> accepted_state(
                r@,
                h,
            ) by {
                assert(!chunk_fed(r@.state, h));
                if contains_hash(r@.manifest.state_hashes, h) {
                    assert(contains_hash(dedup_hashes(r@.manifest.state_hashes), h));
                }
            }
            assert forall|h: Seq<u8>| accepted_state(r@, h) || accepted_block(r@, h)
                implies #[trigger] dir_has(r@.writer, hex_of(h)) by {
                if contains_hash(r@.manifest.state_hashes, h) {
                    assert(contains_hash(dedup_hashes(r@.manifest.state_hashes), h));
                }
                if contains_hash(r@.manifest.block_hashes, h) {
                    assert(contains_hash(dedup_hashes(r@.manifest.block_hashes), h));
                }
            }
            assert forall|n: Seq<u8>| #[trigger] dir_has(r@.writer, n) implies exists|h: Seq<u8>|
                (accepted_state(r@, h) || accepted_block(r@, h)) && n == hex_of(h) by {
                assert(!dir_has(r@.writer, n));
            }
            assert(rest_wf(r@));
        }
        r
    }

    /// Both chunk sets are drained: everything the manifest expects has
    /// been accepted.
    pub fn is_done(&self) -> (r: bool)
        ensures
            r == (self@.state_left.len() == 0 && self@.block_left.len() == 0),
    {
        self.block_chunks_left.is_empty() && self.state_chunks_left.is_empty()
    }
}

/// Remove `h` from the expected set if present; report whether it was.
fn take_expected(v: &mut Vec<Hash256>, h: &Hash256) -> (found: bool)
    requires
        distinct_hashes(old(v)@.map_values(|x: Hash256| x@)),
    ensures
        found == contains_hash(old(v)@.map_values(|x: Hash256| x@), h@),
        found ==> final(v)@.map_values(|x: Hash256| x@) == remove_hash(
            old(v)@.map_values(|x: Hash256| x@),
            h@,
        ),
        !found ==> final(v)@ == old(v)@,
{
    let ghost hv = old(v)@.map_values(|x: Hash256| x@);
    let n = v.len();
    let mut i: usize = 0;
    while i < n
        invariant
            i <= n,
            n == v@.len(),
            v@ == old(v)@,
            hv == v@.map_values(|x: Hash256| x@),
            distinct_hashes(hv),
            forall|j: int| 0 <= j < i ==> hv[j] != h@,
        decreases n - i,
    {
        if v[i] == *h {
            proof {
                assert(hv[i as int] == h@);
                lemma_remove_hash(hv, h@, i as int);
            }
            v.remove(i);
            proof {
                assert(v@.map_values(|x: Hash256| x@) =~= hv.remove(i as int));
            }
            return true;
        }
        i = i + 1;
    }
    proof {
        assert(!contains_hash(hv, h@));
    }
    false
}


impl Restoration {
    /// Feed a compressed state chunk.  A chunk whose hash is not expected
    /// is ignored; an expected chunk is decompressed, handed to the state
    /// rebuilder, and its compressed bytes persisted by the writer.
    /// Returns whether the chunk was accepted.
    pub fn feed_state(&mut self, hash: &Hash256, chunk: &[u8], io_fault: bool) -> (r: Result<
        bool,
        Error,
    >)
        requires
            rest_wf(old(self)@),
        ensures
            final(self)@ == rest_feed_state(old(self)@, hash@, chunk@, io_fault).0,
            ({
                let out = rest_feed_state(old(self)@, hash@, chunk@, io_fault).1;
                match r {
                    Ok(accepted) => {
                        &&& rest_wf(final(self)@)
                        &&& (accepted <==> out is Accepted)
                        &&& (out is Accepted || out is Ignored)
                        &&& (out is Accepted ==> dir_get(final(self)@.writer, hex_of(hash@))
                            == Some(chunk@))
                    },
                    Err(e) => (out is Corrupt && e is CorruptChunk) || (out is IoFailed
                        && e is Io),
                }
            }),
    {
        let found = take_expected(&mut self.state_chunks_left, hash);
        if !found {
            return Ok(false);
        }
        proof {
            assert(accepted_state(old(self)@, hash@) == false);
            assert(!chunk_fed(old(self)@.state, hash@));
        }
        let len = match decompress_into(chunk, &mut self.snappy_buffer) {
            Ok(l) => l,
            Err(e) => {
                return Err(e);
            },
        };
        let payload = vstd::slice::slice_subrange(self.snappy_buffer.as_slice(), 0, len);
        proof {
            assert(payload@ =~= inflated(chunk@).unwrap());
        }
        match self.state.feed(hash, payload) {
            Ok(()) => (),
            Err(e) => {
                return Err(e);
            },
        };
        match self.writer.write_chunk(hash, chunk, io_fault) {
            Ok(()) => (),
            Err(e) => {
                return Err(e);
            },
        };
        proof {
            lemma_feed_wf(old(self)@, self@, hash@, chunk@);
        }
        Ok(true)
    }

    /// Feed a compressed block chunk, mirroring [`Self::feed_state`]
    /// against the block rebuilder: the run is parsed, each block's seal
    /// verified with the engine, and the run filed for gluing.
    pub fn feed_blocks<E: Engine>(
        &mut self,
        hash: &Hash256,
        chunk: &[u8],
        engine: &E,
        io_fault: bool,
    ) -> (r: Result<bool, Error>)
        requires
            rest_wf(old(self)@),
        ensures
            final(self)@ == rest_feed_blocks(*engine, old(self)@, hash@, chunk@, io_fault).0,
            ({
                let out = rest_feed_blocks(*engine, old(self)@, hash@, chunk@, io_fault).1;
                match r {
                    Ok(accepted) => {
                        &&& rest_wf(final(self)@)
                        &&& (accepted <==> out is Accepted)
                        &&& (out is Accepted || out is Ignored)
                        &&& (out is Accepted ==> dir_get(final(self)@.writer, hex_of(hash@))
                            == Some(chunk@))
                    },
                    Err(e) => (out is Corrupt && e is CorruptChunk) || (out is BadSeal
                        && e is InvalidSeal) || (out is IoFailed && e is Io),
                }
            }),
    {
        let found = take_expected(&mut self.block_chunks_left, hash);
        if !found {
            return Ok(false);
        }
        let len = match decompress_into(chunk, &mut self.snappy_buffer) {
            Ok(l) => l,
            Err(e) => {
                return Err(e);
            },
        };
        let payload = vstd::slice::slice_subrange(self.snappy_buffer.as_slice(), 0, len);
        proof {
            assert(payload@ =~= inflated(chunk@).unwrap());
        }
        match self.blocks.feed(payload, engine) {
            Ok(()) => (),
            Err(e) => {
                return Err(e);
            },
        };
        match self.writer.write_chunk(hash, chunk, io_fault) {
            Ok(()) => (),
            Err(e) => {
                return Err(e);
            },
        };
        proof {
            lemma_feed_blocks_wf(old(self)@, self@, hash@, chunk@);
        }
        Ok(true)
    }
}

/// After an accepted state chunk, the restoration invariant still holds.
proof fn lemma_feed_wf(rm0: RestorationModel, rm: RestorationModel, h: Seq<u8>, c: Seq<u8>)
    requires
        rest_wf(rm0),
        contains_hash(rm0.state_left, h),
        inflated(c) is Some,
        parse_state_entries(inflated(c).unwrap()) is Some,
        rm.manifest == rm0.manifest,
        rm.root == rm0.root,
        rm.blocks == rm0.blocks,
        rm.blocks_target == rm0.blocks_target,
        rm.block_left == rm0.block_left,
        rm.state_left == remove_hash(rm0.state_left, h),
        rm.state == rm0.state.push(FedChunkModel {
            hash: h,
            entries: parse_state_entries(inflated(c).unwrap()).unwrap(),
        }),
        state_wf(rm.state),
        rm.writer == dir_put(rm0.writer, hex_of(h), c),
    ensures
        rest_wf(rm),
        dir_get(rm.writer, hex_of(h)) == Some(c),
{
    let i = choose|i: int| 0 <= i < rm0.state_left.len() && rm0.state_left[i] == h;
    lemma_remove_hash(rm0.state_left, h, i);
    lemma_dir_put(rm0.writer, hex_of(h), c);
    assert forall|g: Seq<u8>| #[trigger] chunk_fed(rm.state, g) <==> accepted_state(rm, g) by {
        if g == h {
            assert(rm.state.last().hash == h);
            assert(chunk_fed(rm.state, h));
            assert(contains_hash(rm0.manifest.state_hashes, h));
        } else {
            assert(chunk_fed(rm.state, g) <==> chunk_fed(rm0.state, g)) by {
                if chunk_fed(rm.state, g) {
                    let k = choose|k: int| 0 <= k < rm.state.len() && rm.state[k].hash == g;
                    assert(k < rm0.state.len());
                    assert(rm0.state[k].hash == g);
                }
                if chunk_fed(rm0.state, g) {
                    let k = choose|k: int| 0 <= k < rm0.state.len() && rm0.state[k].hash == g;
                    assert(rm.state[k].hash == g);
                }
            }
        }
    }
    assert forall|g: Seq<u8>| accepted_state(rm, g) || accepted_block(rm, g)
        implies #[trigger] dir_has(rm.writer, hex_of(g)) by {
        if g != h {
            assert(dir_has(rm0.writer, hex_of(g)));
        }
    }
    assert forall|n: Seq<u8>| #[trigger] dir_has(rm.writer, n) implies exists|g: Seq<u8>|
        (accepted_state(rm, g) || accepted_block(rm, g)) && n == hex_of(g) by {
        if n == hex_of(h) {
            assert(accepted_state(rm, h) && n == hex_of(h));
        } else {
            assert(dir_has(rm0.writer, n));
            let g = choose|g: Seq<u8>| (accepted_state(rm0, g) || accepted_block(rm0, g)) && n
                == hex_of(g);
            assert(g != h);
            assert((accepted_state(rm, g) || accepted_block(rm, g)) && n == hex_of(g));
        }
    }
}

/// After an accepted block chunk, the restoration invariant still holds.
proof fn lemma_feed_blocks_wf(rm0: RestorationModel, rm: RestorationModel, h: Seq<u8>, c: Seq<u8>)
    requires
        rest_wf(rm0),
        contains_hash(rm0.block_left, h),
        rm.manifest == rm0.manifest,
        rm.root == rm0.root,
        rm.state == rm0.state,
        rm.blocks_target == rm0.blocks_target,
        rm.state_left == rm0.state_left,
        rm.block_left == remove_hash(rm0.block_left, h),
        blocks_wf(rm.blocks),
        rm.writer == dir_put(rm0.writer, hex_of(h), c),
    ensures
        rest_wf(rm),
        dir_get(rm.writer, hex_of(h)) == Some(c),
{
    let i = choose|i: int| 0 <= i < rm0.block_left.len() && rm0.block_left[i] == h;
    lemma_remove_hash(rm0.block_left, h, i);
    lemma_dir_put(rm0.writer, hex_of(h), c);
    assert forall|g: Seq<u8>| #[trigger] chunk_fed(rm.state, g) <==> accepted_state(rm, g) by {
        assert(chunk_fed(rm0.state, g) <==> accepted_state(rm0, g));
    }
    assert forall|g: Seq<u8>| accepted_state(rm, g) || accepted_block(rm, g)
        implies #[trigger] dir_has(rm.writer, hex_of(g)) by {
        if g != h {
            assert(dir_has(rm0.writer, hex_of(g)));
        }
    }
    assert forall|n: Seq<u8>| #[trigger] dir_has(rm.writer, n) implies exists|g: Seq<u8>|
        (accepted_state(rm, g) || accepted_block(rm, g)) && n == hex_of(g) by {
        if n == hex_of(h) {
            assert(contains_hash(rm0.manifest.block_hashes, h));
            assert(accepted_block(rm, h) && n == hex_of(h));
        } else {
            assert(dir_has(rm0.writer, n));
            let g = choose|g: Seq<u8>| (accepted_state(rm0, g) || accepted_block(rm0, g)) && n
                == hex_of(g);
            assert(g != h);
            assert((accepted_state(rm, g) || accepted_block(rm, g)) && n == hex_of(g));
        }
    }
}



impl Restoration {
    /// Finish the attempt: verify the rebuilt state root against the
    /// manifest, check that every referenced code blob was supplied, glue
    /// the block runs, and write the `MANIFEST` file.  On success, returns
    /// the completed snapshot directory and the contents of the rebuilt
    /// staging database.  Requires that both chunk sets are drained.
    pub fn finalize(self, io_fault: bool) -> (r: Result<(DirFiles, Vec<u8>), Error>)
        requires
            rest_wf(self@),
            self@.state_left.len() == 0,
            self@.block_left.len() == 0,
        ensures
            match r {
                Ok(out) => {
                    &&& !io_fault
                    &&& state_root_of(self@.manifest.state_hashes, self@.state)
                        == self@.manifest.state_root
                    &&& !state_missing_code(self@.state)
                    &&& runs_glued(self@.blocks)
                    &&& runs_end_at(self@.blocks, self@.manifest.block_number)
                    &&& dir_wf(out.0@)
                    &&& out.0@ == dir_put(
                        self@.writer,
                        manifest_name(),
                        spec_encode_manifest(self@.manifest),
                    )
                    &&& dir_get(out.0@, manifest_name())
                        == Some(spec_encode_manifest(self@.manifest))
                    &&& forall|h: Seq<u8>| contains_hash(self@.manifest.state_hashes, h)
                        || contains_hash(self@.manifest.block_hashes, h)
                        ==> #[trigger] dir_has(out.0@, hex_of(h))
                    &&& out.1@ == canon_state(self@.manifest.state_hashes, self@.state)
                },
                Err(e) => match e {
                    Error::WrongStateRoot { expected, got } => {
                        &&& expected@ == self@.manifest.state_root
                        &&& got@ == state_root_of(self@.manifest.state_hashes, self@.state)
                        &&& got@ != expected@
                    },
                    Error::MissingCode => {
                        &&& state_root_of(self@.manifest.state_hashes, self@.state)
                            == self@.manifest.state_root
                        &&& state_missing_code(self@.state)
                    },
                    Error::Discontinuity => {
                        &&& state_root_of(self@.manifest.state_hashes, self@.state)
                            == self@.manifest.state_root
                        &&& !state_missing_code(self@.state)
                        &&& !(runs_glued(self@.blocks) && runs_end_at(
                            self@.blocks,
                            self@.manifest.block_number,
                        ))
                    },
                    Error::Io => {
                        &&& io_fault
                        &&& state_root_of(self@.manifest.state_hashes, self@.state)
                            == self@.manifest.state_root
                        &&& !state_missing_code(self@.state)
                        &&& runs_glued(self@.blocks)
                        &&& runs_end_at(self@.blocks, self@.manifest.block_number)
                    },
                    _ => false,
                },
            },
    {
        proof {
            assert forall|i: int| 0 <= i < self.manifest.state_hashes@.len()
                implies chunk_fed(self@.state, (#[trigger] self.manifest.state_hashes@[i])@) by {
                assert(self@.manifest.state_hashes[i] == self.manifest.state_hashes@[i]@);
                assert(contains_hash(self@.manifest.state_hashes, self.manifest.state_hashes@[i]@));
                assert(accepted_state(self@, self.manifest.state_hashes@[i]@));
            }
        }
        let canon = self.state.canonical(&self.manifest.state_hashes);
        let root = crate::hash::keccak256(canon.as_slice());
        if !(root == self.final_state_root) {
            return Err(Error::WrongStateRoot { expected: self.final_state_root, got: root });
        }
        match self.state.check_missing() {
            Ok(()) => (),
            Err(e) => {
                return Err(e);
            },
        };
        match self.blocks.glue_chunks() {
            Ok(()) => (),
            Err(e) => {
                return Err(e);
            },
        };
        let mut writer = self.writer;
        match writer.finish(&self.manifest, io_fault) {
            Ok(()) => (),
            Err(e) => {
                return Err(e);
            },
        };
        proof {
            lemma_dir_put(self@.writer, manifest_name(), spec_encode_manifest(self@.manifest));
            assert forall|h: Seq<u8>| contains_hash(self@.manifest.state_hashes, h)
                || contains_hash(self@.manifest.block_hashes, h)
                implies #[trigger] dir_has(writer.dir@, hex_of(h)) by {
                assert(accepted_state(self@, h) || accepted_block(self@, h));
                assert(dir_has(self@.writer, hex_of(h)));
            }
        }
        Ok((writer.dir, canon))
    }
}

} // verus!
