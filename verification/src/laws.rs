//! The laws of the feed protocol, proved over the restoration's transition
//! functions and over the service's own contracts.
//!
//! Together with the contracts of the service methods these pin the
//! protocol down: feeding is idempotent, unknown chunks are no-ops, a
//! restarted attempt retraces an uninterrupted one, an empty manifest is
//! done at once, feeding one kind of chunk never drains the other kind's
//! set, and the published snapshot serves every accepted chunk's bytes.

use vstd::prelude::*;
use crate::chunks::{parse_state_entries, parse_block_run};
use crate::codec::inflated;
use crate::disk::{dir_has, dir_get, dir_put, lemma_dir_put};
use crate::engine::Engine;
use crate::hash::{hex_of, keccak_of, lemma_hex_of_injective, lemma_hex_of_len};
use crate::loose::manifest_name;
use crate::manifest::spec_encode_manifest;
use crate::rebuild::{FedChunkModel, RunModel, canon_state, state_root_of, state_missing_code,
    runs_glued, runs_end_at, runs_insert, run_linked, run_sealed};
use crate::restoration::{RestorationModel, FeedOutcome, rest_init, rest_feed_state,
    rest_feed_blocks, rest_wf, accepted_state, accepted_block, contains_hash, distinct_hashes,
    dedup_hashes, lemma_remove_hash};
use crate::service::{Service, feed_post, feed_transition, finalize_ok_post, finalize_verifies,
    rest_done, service_wf};

verus! {

/// Feeding the same state chunk twice is equivalent to feeding it once:
/// whatever the first feed did, the second is a no-op.
pub proof fn lemma_feed_state_idempotent(
    rm: RestorationModel,
    h: Seq<u8>,
    c: Seq<u8>,
    f1: bool,
    f2: bool,
)
    requires
        distinct_hashes(rm.state_left),
    ensures
        rest_feed_state(rest_feed_state(rm, h, c, f1).0, h, c, f2) == (
            rest_feed_state(rm, h, c, f1).0,
            FeedOutcome::Ignored,
        ),
{
    if contains_hash(rm.state_left, h) {
        let i = choose|i: int| 0 <= i < rm.state_left.len() && rm.state_left[i] == h;
        lemma_remove_hash(rm.state_left, h, i);
        assert(!contains_hash(rest_feed_state(rm, h, c, f1).0.state_left, h));
    }
}

/// Feeding the same block chunk twice is equivalent to feeding it once.
pub proof fn lemma_feed_blocks_idempotent<E: Engine>(
    e: E,
    rm: RestorationModel,
    h: Seq<u8>,
    c: Seq<u8>,
    f1: bool,
    f2: bool,
)
    requires
        distinct_hashes(rm.block_left),
    ensures
        rest_feed_blocks(e, rest_feed_blocks(e, rm, h, c, f1).0, h, c, f2) == (
            rest_feed_blocks(e, rm, h, c, f1).0,
            FeedOutcome::Ignored,
        ),
{
    if contains_hash(rm.block_left, h) {
        let i = choose|i: int| 0 <= i < rm.block_left.len() && rm.block_left[i] == h;
        lemma_remove_hash(rm.block_left, h, i);
        assert(!contains_hash(rest_feed_blocks(e, rm, h, c, f1).0.block_left, h));
    }
}

/// Feeding a chunk whose hash is not in the manifest is a no-op.
pub proof fn lemma_feed_unknown_state_noop(rm: RestorationModel, h: Seq<u8>, c: Seq<u8>, f: bool)
    requires
        rest_wf(rm),
        !contains_hash(rm.manifest.state_hashes, h),
    ensures
        rest_feed_state(rm, h, c, f) == (rm, FeedOutcome::Ignored),
{
    if contains_hash(rm.state_left, h) {
        let i = choose|i: int| 0 <= i < rm.state_left.len() && rm.state_left[i] == h;
        assert(contains_hash(rm.manifest.state_hashes, rm.state_left[i]));
    }
}

/// Feeding a block chunk whose hash is not in the manifest is a no-op.
pub proof fn lemma_feed_unknown_blocks_noop<E: Engine>(
    e: E,
    rm: RestorationModel,
    h: Seq<u8>,
    c: Seq<u8>,
    f: bool,
)
    requires
        rest_wf(rm),
        !contains_hash(rm.manifest.block_hashes, h),
    ensures
        rest_feed_blocks(e, rm, h, c, f) == (rm, FeedOutcome::Ignored),
{
    if contains_hash(rm.block_left, h) {
        let i = choose|i: int| 0 <= i < rm.block_left.len() && rm.block_left[i] == h;
        assert(contains_hash(rm.manifest.block_hashes, rm.block_left[i]));
    }
}

/// One feed of either kind, as the executor delivers them.
pub struct FeedEvent {
    pub is_state: bool,
    pub hash: Seq<u8>,
    pub chunk: Seq<u8>,
    pub io_fault: bool,
}

/// The state a restoration reaches after a sequence of feeds.
pub open spec fn rest_feed_all<E: Engine>(
    e: E,
    rm: RestorationModel,
    feeds: Seq<FeedEvent>,
) -> RestorationModel
    decreases feeds.len(),
{
    if feeds.len() == 0 {
        rm
    } else {
        let next = if feeds[0].is_state {
            rest_feed_state(rm, feeds[0].hash, feeds[0].chunk, feeds[0].io_fault).0
        } else {
            rest_feed_blocks(e, rm, feeds[0].hash, feeds[0].chunk, feeds[0].io_fault).0
        };
        rest_feed_all(e, next, feeds.skip(1))
    }
}

/// An aborted attempt leaves no trace.  Opening a restoration depends on
/// the manifest alone (see `Restoration::new` and `Service::init_restore`,
/// whose fresh state is `rest_init` of the manifest whatever went before),
/// and feeding is a function of the state and the chunks: so an abort
/// followed by the same begin and the same feeds retraces the
/// uninterrupted run exactly - chunk files, manifest file and all.
pub proof fn lemma_restart_retraces<E: Engine>(
    e: E,
    interrupted: RestorationModel,
    plain: RestorationModel,
    feeds: Seq<FeedEvent>,
)
    requires
        interrupted == rest_init(plain.manifest),
        plain == rest_init(plain.manifest),
    ensures
        rest_feed_all(e, interrupted, feeds) == rest_feed_all(e, plain, feeds),
    decreases feeds.len(),
{
}

/// A manifest with no state chunks and no block chunks is done at once:
/// the fresh restoration's chunk sets are already drained, and its
/// finalization succeeds - provided the manifest's state root is the root
/// of the empty state - as soon as the first feed attempt (or the first
/// `is_done` check) reaches it.
pub proof fn lemma_empty_manifest_done(m: crate::manifest::ManifestModel)
    requires
        m.state_hashes.len() == 0,
        m.block_hashes.len() == 0,
    ensures
        rest_init(m).state_left.len() == 0,
        rest_init(m).block_left.len() == 0,
        state_root_of(m.state_hashes, rest_init(m).state) == keccak_of(Seq::<u8>::empty()),
        !state_missing_code(rest_init(m).state),
        runs_glued(rest_init(m).blocks),
        runs_end_at(rest_init(m).blocks, m.block_number),
{
    assert(m.state_hashes =~= Seq::<Seq<u8>>::empty());
    assert(m.block_hashes =~= Seq::<Seq<u8>>::empty());
    assert(canon_state(m.state_hashes, rest_init(m).state) == Seq::<u8>::empty());
}

/// Feeding a state chunk never drains the block set, and conversely: with
/// one set empty and the other not, finalization waits until the non-empty
/// set drains through feeds of its own kind.
pub proof fn lemma_feed_keeps_other_set<E: Engine>(
    e: E,
    rm: RestorationModel,
    h: Seq<u8>,
    c: Seq<u8>,
    f: bool,
)
    ensures
        rest_feed_state(rm, h, c, f).0.block_left == rm.block_left,
        rest_feed_blocks(e, rm, h, c, f).0.state_left == rm.state_left,
{
}

/// Every accepted chunk has exactly one file in the writer's directory,
/// named by the hex spelling of the chunk's content hash.
pub proof fn lemma_one_file_per_accepted_chunk(rm: RestorationModel, h: Seq<u8>)
    requires
        rest_wf(rm),
        accepted_state(rm, h) || accepted_block(rm, h),
    ensures
        dir_has(rm.writer, hex_of(h)),
        exists|i: int|
            {
                &&& 0 <= i < rm.writer.len()
                &&& (#[trigger] rm.writer[i]).name == hex_of(h)
                &&& forall|j: int| 0 <= j < rm.writer.len() && rm.writer[j].name == hex_of(h)
                    ==> j == i
            },
        forall|g: Seq<u8>| g != h ==> hex_of(g) != hex_of(h),
{
    assert forall|g: Seq<u8>| g != h implies hex_of(g) != hex_of(h) by {
        if hex_of(g) == hex_of(h) {
            lemma_hex_of_injective(g, h);
        }
    }
    assert(dir_has(rm.writer, hex_of(h)));
    let i = choose|i: int| 0 <= i < rm.writer.len() && rm.writer[i].name == hex_of(h);
    assert forall|j: int| 0 <= j < rm.writer.len() && rm.writer[j].name == hex_of(h)
        implies j == i by {
        if j < i {
            assert(rm.writer[j].name != rm.writer[i].name);
        }
        if j > i {
            assert(rm.writer[i].name != rm.writer[j].name);
        }
    }
}


/// A feed leaves every other chunk's persisted file untouched: the writer
/// gains at most the file of the chunk being fed.
pub proof fn lemma_feed_preserves_written<E: Engine>(
    e: E,
    rm: RestorationModel,
    h: Seq<u8>,
    c: Seq<u8>,
    is_state: bool,
    f: bool,
    g: Seq<u8>,
)
    requires
        rest_wf(rm),
        g != h,
    ensures
        dir_get(feed_transition(e, rm, h, c, is_state, f).0.writer, hex_of(g)) == dir_get(
            rm.writer,
            hex_of(g),
        ),
{
    lemma_hex_of_injective_contra(g, h);
    let rm2 = feed_transition(e, rm, h, c, is_state, f).0;
    if rm2.writer != rm.writer {
        lemma_dir_put(rm.writer, hex_of(h), c);
    }
}

proof fn lemma_hex_of_injective_contra(g: Seq<u8>, h: Seq<u8>)
    requires
        g != h,
    ensures
        hex_of(g) != hex_of(h),
{
    if hex_of(g) == hex_of(h) {
        lemma_hex_of_injective(g, h);
    }
}

/// The published snapshot serves everything: after a successful
/// finalization, `snapshot/current/` holds the `MANIFEST` file and, for
/// every hash of the manifest, exactly the compressed bytes the writer
/// persisted for that chunk.
pub proof fn lemma_published_serves_all<E: Engine>(s1: Service<E>, rm: RestorationModel, h: Seq<
    u8,
>)
    requires
        finalize_ok_post(s1, rm),
        rest_wf(rm),
        rest_done(rm),
        contains_hash(rm.manifest.state_hashes, h) || contains_hash(rm.manifest.block_hashes, h),
    ensures
        s1.disk.current matches Some(cur) && {
            &&& dir_get(cur@, manifest_name()) == Some(spec_encode_manifest(rm.manifest))
            &&& dir_get(cur@, hex_of(h)) == dir_get(rm.writer, hex_of(h))
            &&& dir_get(cur@, hex_of(h)) is Some
        },
        s1.reader matches Some(rd) && (s1.disk.current matches Some(cur2) && rd.dir@ == cur2@),
{
    assert(accepted_state(rm, h) || accepted_block(rm, h));
    assert(dir_has(rm.writer, hex_of(h)));
    lemma_dir_put(rm.writer, manifest_name(), spec_encode_manifest(rm.manifest));
    lemma_hex_of_len(h);
    assert(hex_of(h).len() != manifest_name().len());
}

/// Feeding the same chunk to the service twice is equivalent to feeding it
/// once: when the first feed left the attempt running, the duplicate
/// changes nothing observable - not the counters, not the disk, not the
/// restoration's state.
pub proof fn lemma_service_duplicate_feed<E: Engine>(
    s0: Service<E>,
    s1: Service<E>,
    s2: Service<E>,
    h: Seq<u8>,
    c: Seq<u8>,
    is_state: bool,
    f1: crate::service::IoFaults,
    f2: crate::service::IoFaults,
)
    requires
        service_wf(s0),
        service_wf(s1),
        s0.status is Ongoing && s0.restoration is Some,
        s1.status is Ongoing && s1.restoration is Some,
        feed_post(s0, s1, h, c, is_state, f1),
        feed_post(s1, s2, h, c, is_state, f2),
    ensures
        s2.status == s1.status,
        s2.state_chunks == s1.state_chunks && s2.block_chunks == s1.block_chunks,
        s2.reader == s1.reader,
        s2.disk == s1.disk,
        s2.restoration matches Some(r2) && (s1.restoration matches Some(r1) && r2@ == r1@),
{
    let r0 = s0.restoration.unwrap();
    let (rm2, out) = feed_transition(s0.engine, r0@, h, c, is_state, f1.writer_chunk);
    if out is Corrupt || out is BadSeal || out is IoFailed {
        assert(s1.status is Failed);
    }
    if rest_done(rm2) {
        assert(!(s1.status is Ongoing));
    }
    assert(s1.restoration.unwrap()@ == rm2);
    if is_state {
        lemma_feed_state_idempotent(r0@, h, c, f1.writer_chunk, f2.writer_chunk);
    } else {
        lemma_feed_blocks_idempotent(s0.engine, r0@, h, c, f1.writer_chunk, f2.writer_chunk);
    }
    assert(feed_transition(s1.engine, rm2, h, c, is_state, f2.writer_chunk) == (
        rm2,
        FeedOutcome::Ignored,
    ));
}

/// Feeding the service a chunk whose hash is not in the manifest, while
/// chunks are still expected, changes nothing observable.
pub proof fn lemma_service_unknown_chunk<E: Engine>(
    s0: Service<E>,
    s1: Service<E>,
    h: Seq<u8>,
    c: Seq<u8>,
    is_state: bool,
    f: crate::service::IoFaults,
)
    requires
        service_wf(s0),
        s0.status is Ongoing,
        s0.restoration matches Some(r0) && !rest_done(r0@) && !contains_hash(
            r0@.manifest.state_hashes,
            h,
        ) && !contains_hash(r0@.manifest.block_hashes, h),
        feed_post(s0, s1, h, c, is_state, f),
    ensures
        s1.status is Ongoing,
        s1.restoration matches Some(r1) && (s0.restoration matches Some(r0b) && r1@ == r0b@),
        s1.state_chunks == s0.state_chunks && s1.block_chunks == s0.block_chunks,
        s1.reader == s0.reader,
        s1.disk == s0.disk,
{
    let r0 = s0.restoration.unwrap();
    if is_state {
        lemma_feed_unknown_state_noop(r0@, h, c, f.writer_chunk);
    } else {
        lemma_feed_unknown_blocks_noop(s0.engine, r0@, h, c, f.writer_chunk);
    }
    assert(feed_transition(s0.engine, r0@, h, c, is_state, f.writer_chunk) == (
        r0@,
        FeedOutcome::Ignored,
    ));
}


/// The happy path, as one law: from a fresh restoration over a manifest
/// that expects the state chunks `h1`, `h2` and the block chunk `b1`,
/// feeding those three chunks - valid, rebuilding to the manifest's root,
/// under a willing environment - counts each exactly once, finalizes on
/// the last one, and publishes a snapshot that serves the manifest and
/// exactly the fed compressed bytes under each chunk's hash.
pub proof fn lemma_happy_path<E: Engine>(
    s0: Service<E>,
    s1: Service<E>,
    s2: Service<E>,
    s3: Service<E>,
    m: crate::manifest::ManifestModel,
    h1: Seq<u8>,
    h2: Seq<u8>,
    b1: Seq<u8>,
    c1: Seq<u8>,
    c2: Seq<u8>,
    cb: Seq<u8>,
    f: crate::service::IoFaults,
)
    requires
        service_wf(s0),
        s0.status is Ongoing,
        s0.restoration matches Some(r) && r@ == rest_init(m),
        m.state_hashes == seq![h1, h2],
        m.block_hashes == seq![b1],
        h1 != h2 && h1 != b1 && h2 != b1,
        !f.writer_chunk && !f.writer_finish && !f.backup_rename && !f.swap_rename
            && !f.clear_current && f.move_files_at is None,
        inflated(c1) is Some && parse_state_entries(inflated(c1).unwrap()) is Some,
        inflated(c2) is Some && parse_state_entries(inflated(c2).unwrap()) is Some,
        inflated(cb) is Some && parse_block_run(inflated(cb).unwrap()) is Some,
        ({
            let (first, bs) = parse_block_run(inflated(cb).unwrap()).unwrap();
            &&& first + bs.len() - 1 <= u64::MAX
            &&& run_linked(bs)
            &&& run_sealed(s0.engine, bs)
            &&& first + bs.len() - 1 == m.block_number
        }),
        ({
            let fed = seq![
                FedChunkModel { hash: h1, entries: parse_state_entries(inflated(c1).unwrap()).unwrap() },
                FedChunkModel { hash: h2, entries: parse_state_entries(inflated(c2).unwrap()).unwrap() },
            ];
            &&& state_root_of(m.state_hashes, fed) == m.state_root
            &&& !state_missing_code(fed)
        }),
        feed_post(s0, s1, h1, c1, true, f),
        feed_post(s1, s2, h2, c2, true, f),
        feed_post(s2, s3, b1, cb, false, f),
    ensures
        s1.status is Ongoing && s1.state_chunks == s0.state_chunks + 1,
        s2.status is Ongoing && s2.state_chunks == s0.state_chunks + 2,
        s3.status is Inactive,
        s3.state_chunks == 0 && s3.block_chunks == 0,
        s3.restoration is None,
        s3.disk.current matches Some(cur) && {
            &&& dir_get(cur@, manifest_name()) == Some(spec_encode_manifest(m))
            &&& dir_get(cur@, hex_of(h1)) == Some(c1)
            &&& dir_get(cur@, hex_of(h2)) == Some(c2)
            &&& dir_get(cur@, hex_of(b1)) == Some(cb)
        },
        s3.reader matches Some(rd) && rd.manifest@ == m && (s3.disk.current matches Some(cur2)
            && rd.dir@ == cur2@),
{
    let rm0 = rest_init(m);
    assert(dedup_hashes(Seq::<Seq<u8>>::empty()) =~= Seq::<Seq<u8>>::empty());
    assert(seq![h1].drop_last() =~= Seq::<Seq<u8>>::empty());
    assert(seq![h1].last() == h1);
    assert(!contains_hash(Seq::<Seq<u8>>::empty(), h1));
    assert(dedup_hashes(seq![h1]) =~= seq![h1]);
    assert(m.state_hashes.drop_last() =~= seq![h1]);
    assert(m.state_hashes.last() == h2);
    assert(seq![h1][0] == h1);
    assert(!contains_hash(seq![h1], h2));
    assert(rm0.state_left =~= seq![h1, h2]) by {
        assert(dedup_hashes(m.state_hashes) == dedup_hashes(seq![h1]).push(h2));
    }
    assert(m.block_hashes.drop_last() =~= Seq::<Seq<u8>>::empty());
    assert(m.block_hashes.last() == b1);
    assert(!contains_hash(Seq::<Seq<u8>>::empty(), b1));
    assert(rm0.block_left =~= seq![b1]) by {
        assert(dedup_hashes(m.block_hashes) == dedup_hashes(
            Seq::<Seq<u8>>::empty(),
        ).push(b1));
    }

    // First feed: h1 is expected, the chunk parses, the file is written.
    let e1 = parse_state_entries(inflated(c1).unwrap()).unwrap();
    let e2 = parse_state_entries(inflated(c2).unwrap()).unwrap();
    assert(rm0.state_left[0] == h1);
    assert(contains_hash(rm0.state_left, h1));
    lemma_remove_hash(rm0.state_left, h1, 0);
    let (rm1, out1) = rest_feed_state(rm0, h1, c1, false);
    assert(out1 is Accepted);
    assert(rm1.state_left =~= seq![h2]) by {
        assert(rm1.state_left == rm0.state_left.remove(0));
    }
    assert(rm1.block_left == rm0.block_left);
    assert(!rest_done(rm1));
    assert(s1.status is Ongoing && (s1.restoration matches Some(sr1) && sr1@ == rm1));
    assert(s1.state_chunks == s0.state_chunks + 1);

    // Second feed drains the state set.
    assert(rm1.state_left[0] == h2);
    assert(contains_hash(rm1.state_left, h2));
    assert(distinct_hashes(rm1.state_left));
    lemma_remove_hash(rm1.state_left, h2, 0);
    let (rm2, out2) = rest_feed_state(rm1, h2, c2, false);
    assert(out2 is Accepted);
    assert(rm2.state_left =~= Seq::<Seq<u8>>::empty()) by {
        assert(rm2.state_left == rm1.state_left.remove(0));
    }
    assert(rm2.block_left == rm0.block_left);
    assert(!rest_done(rm2));
    assert(s1.engine == s0.engine);
    assert(s2.status is Ongoing && (s2.restoration matches Some(sr2) && sr2@ == rm2));
    assert(s2.state_chunks == s0.state_chunks + 2);

    // Third feed drains the block set and finalizes.
    assert(rm2.block_left[0] == b1);
    assert(contains_hash(rm2.block_left, b1));
    assert(distinct_hashes(rm2.block_left));
    lemma_remove_hash(rm2.block_left, b1, 0);
    let (rm3, out3) = rest_feed_blocks(s0.engine, rm2, b1, cb, false);
    assert(out3 is Accepted);
    assert(rm3.block_left =~= Seq::<Seq<u8>>::empty()) by {
        assert(rm3.block_left == rm2.block_left.remove(0));
    }
    assert(rm3.state_left == rm2.state_left);
    assert(rest_done(rm3));
    assert(s2.engine == s0.engine);

    // The drained restoration verifies: its fed state is exactly the two
    // chunks, its one block run ends at the manifest's highest block.
    let fed = seq![
        FedChunkModel { hash: h1, entries: e1 },
        FedChunkModel { hash: h2, entries: e2 },
    ];
    assert(rm3.state =~= fed);
    assert(rm3.manifest == m);
    let (first, bs) = parse_block_run(inflated(cb).unwrap()).unwrap();
    let run = RunModel { first, blocks: bs };
    assert(rm3.blocks =~= seq![run]) by {
        assert(rm2.blocks =~= Seq::<RunModel>::empty());
        assert(runs_insert(rm2.blocks, run) =~= seq![run]);
    }
    assert(runs_glued(rm3.blocks));
    assert(runs_end_at(rm3.blocks, m.block_number));
    assert(finalize_verifies(rm3));
    assert(!crate::service::finalize_faulted(f, s2.disk.client_db is Some));
    assert(finalize_ok_post(s3, rm3));

    // The published directory serves the manifest and each fed chunk.
    lemma_hex_of_injective_contra(h1, h2);
    lemma_hex_of_injective_contra(h1, b1);
    lemma_hex_of_injective_contra(h2, b1);
    lemma_hex_of_len(h1);
    lemma_hex_of_len(h2);
    lemma_hex_of_len(b1);
    let w0 = rm0.writer;
    assert(w0 =~= Seq::<crate::disk::FileModel>::empty());
    assert(crate::disk::dir_wf(w0));
    let w1 = dir_put(w0, hex_of(h1), c1);
    lemma_dir_put(w0, hex_of(h1), c1);
    assert(rm1.writer == w1);
    let w2 = dir_put(w1, hex_of(h2), c2);
    lemma_dir_put(w1, hex_of(h2), c2);
    assert(rm2.writer == w2);
    let w3 = dir_put(w2, hex_of(b1), cb);
    lemma_dir_put(w2, hex_of(b1), cb);
    assert(rm3.writer == w3);
    assert(dir_get(w3, hex_of(h1)) == Some(c1));
    assert(dir_get(w3, hex_of(h2)) == Some(c2));
    assert(dir_get(w3, hex_of(b1)) == Some(cb));
    lemma_dir_put(w3, manifest_name(), spec_encode_manifest(m));
    let cur = s3.disk.current.unwrap();
    assert(cur@ == dir_put(w3, manifest_name(), spec_encode_manifest(rm3.manifest)));
    assert(hex_of(h1).len() != manifest_name().len());
    assert(hex_of(h2).len() != manifest_name().len());
    assert(hex_of(b1).len() != manifest_name().len());
}

} // verus!
