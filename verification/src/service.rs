//! The long-lived snapshot service.
//!
//! The service owns the on-disk directory tree, drives the restoration
//! lifecycle (init, feed, finalize, abort), serves the current snapshot to
//! peers through a reader, and publishes status and progress counters.
//!
//! The embedding runs the service behind a lock and delivers the messages
//! of [`ClientIoMessage`] on a single executor, so the service itself is a
//! sequential state machine.  Every operation that touches the filesystem
//! takes the environment's verdicts as an [`IoFaults`] value; the contracts
//! hold for every such value, so the directory lifecycle - in particular
//! the database swap with its backup and rollback - is verified against
//! every pattern of I/O failures.

use vstd::prelude::*;
use crate::disk::{Disk, dir_wf, dir_get, dir_has, dir_put};
use crate::engine::Engine;
use crate::errors::Error;
use crate::hash::{Hash256, hex_of};
use crate::loose::{LooseWriter, LooseReader, reader_wf, manifest_name};
use crate::manifest::{ManifestData, spec_encode_manifest, lemma_manifest_round_trip};
use crate::rebuild::{canon_state, state_root_of, state_missing_code, runs_glued, runs_end_at};
use crate::restoration::{Restoration, RestorationModel, FeedOutcome, rest_wf, rest_init,
    rest_feed_state, rest_feed_blocks, contains_hash};

verus! {

/// Statuses for restorations.
#[derive(PartialEq, Eq, Structural, Clone, Copy, Debug)]
pub enum RestorationStatus {
    /// No restoration.
    Inactive,
    /// Ongoing restoration.
    Ongoing,
    /// Failed restoration.
    Failed,
}

/// The environment's verdicts on the filesystem operations of one service
/// call: which of them fail.  Contracts hold for every value, so the
/// lifecycle is verified under every pattern of I/O failures.
#[derive(Clone, Copy)]
pub struct IoFaults {
    /// Recreating the `restoration/` tree fails.
    pub init_dirs: bool,
    /// Persisting a chunk file fails.
    pub writer_chunk: bool,
    /// Writing the `MANIFEST` file fails.
    pub writer_finish: bool,
    /// `rename(client_db -> backup_db)` fails hard (not by absence).
    pub backup_rename: bool,
    /// `rename(restoration/db -> client_db)` fails.
    pub swap_rename: bool,
    /// Recreating `snapshot/current/` fails after the old one is removed.
    pub clear_current: bool,
    /// Moving the temp files into `snapshot/current/` fails after this many
    /// files were moved, leaving a partial directory behind.
    pub move_files_at: Option<usize>,
}

impl IoFaults {
    /// A willing environment: every operation succeeds.
    pub fn none() -> (f: IoFaults)
        ensures
            !f.init_dirs && !f.writer_chunk && !f.writer_finish && !f.backup_rename
                && !f.swap_rename && !f.clear_current && f.move_files_at is None,
    {
        IoFaults {
            init_dirs: false,
            writer_chunk: false,
            writer_finish: false,
            backup_rename: false,
            swap_rename: false,
            clear_current: false,
            move_files_at: None,
        }
    }
}

/// The messages the service posts to its I/O executor.  The embedding
/// queues them and hands them back to [`Service::handle_io_message`] in
/// FIFO order on a single thread.
pub enum ClientIoMessage {
    /// Start a restoration from this manifest.
    BeginRestoration(ManifestData),
    /// Feed a raw state chunk.
    FeedStateChunk(Hash256, Vec<u8>),
    /// Feed a raw block chunk.
    FeedBlockChunk(Hash256, Vec<u8>),
}

/// The snapshot service of one chain.
pub struct Service<E: Engine> {
    /// The live restoration attempt, if one is active.
    pub restoration: Option<Restoration>,
    /// The published status.
    pub status: RestorationStatus,
    /// The reader serving `snapshot/current/` to peers.
    pub reader: Option<LooseReader>,
    /// Accepted state chunks of the current attempt.
    pub state_chunks: usize,
    /// Accepted block chunks of the current attempt.
    pub block_chunks: usize,
    /// The consensus engine.
    pub engine: E,
    /// The chain's genesis block.
    pub genesis_block: Vec<u8>,
    /// The chain root path.
    pub db_path: String,
    /// The directory tree the service manages.
    pub disk: Disk,
}

/// The part of the invariant the feed path can never break: the reader and
/// the published directory stay well formed, and an open reader serves
/// exactly the contents of `snapshot/current/`.
pub open spec fn service_frame_wf<E: Engine>(s: Service<E>) -> bool {
    &&& match s.reader {
        Some(rd) => reader_wf(rd) && (s.disk.current matches Some(c) && rd.dir@ == c@),
        None => true,
    }
    &&& match s.disk.current {
        Some(d) => dir_wf(d@),
        None => true,
    }
}

/// The service invariant: a live restoration satisfies its own invariant
/// (so its chunks-left sets are drawn from its manifest), a live
/// restoration means an ongoing status, and the progress counters never
/// exceed the chunks accepted so far.
pub open spec fn service_wf<E: Engine>(s: Service<E>) -> bool {
    &&& match s.restoration {
        Some(r) => {
            &&& rest_wf(r@)
            &&& s.state_chunks <= r@.manifest.state_hashes.len() - r@.state_left.len()
            &&& s.block_chunks <= r@.manifest.block_hashes.len() - r@.block_left.len()
        },
        None => true,
    }
    &&& s.restoration is Some ==> s.status is Ongoing
    &&& service_frame_wf(s)
}

/// The configuration a service never changes: its engine, its genesis
/// block, and its chain root path.
pub open spec fn same_config<E: Engine>(s0: Service<E>, s1: Service<E>) -> bool {
    &&& s1.engine == s0.engine
    &&& s1.genesis_block == s0.genesis_block
    &&& s1.db_path == s0.db_path
}

/// Both chunk sets of a restoration are drained.
pub open spec fn rest_done(rm: RestorationModel) -> bool {
    rm.state_left.len() == 0 && rm.block_left.len() == 0
}

/// The feed transition of a live restoration, for either chunk kind.
pub open spec fn feed_transition<E: Engine>(
    e: E,
    rm: RestorationModel,
    h: Seq<u8>,
    c: Seq<u8>,
    is_state: bool,
    write_fault: bool,
) -> (RestorationModel, FeedOutcome) {
    if is_state {
        rest_feed_state(rm, h, c, write_fault)
    } else {
        rest_feed_blocks(e, rm, h, c, write_fault)
    }
}

/// A drained restoration that passes finalization's checks: the rebuilt
/// root equals the manifest's, every referenced code blob was supplied,
/// and the block runs glue into a chain ending at the highest block.
pub open spec fn finalize_verifies(rm: RestorationModel) -> bool {
    &&& state_root_of(rm.manifest.state_hashes, rm.state) == rm.manifest.state_root
    &&& !state_missing_code(rm.state)
    &&& runs_glued(rm.blocks)
    &&& runs_end_at(rm.blocks, rm.manifest.block_number)
}

/// Which injected faults make a finalization fail.  The backup rename is
/// consulted only when a client database exists to be renamed.
pub open spec fn finalize_faulted(faults: IoFaults, client_db_present: bool) -> bool {
    ||| faults.writer_finish
    ||| (faults.backup_rename && client_db_present)
    ||| faults.swap_rename
    ||| faults.clear_current
    ||| faults.move_files_at is Some
}

/// A finalization failure that strikes before the database swap completes:
/// either the restoration does not verify, or the manifest write or one of
/// the two renames fails.
pub open spec fn pre_swap_failure<E: Engine>(
    s0: Service<E>,
    rm: RestorationModel,
    faults: IoFaults,
) -> bool {
    ||| !finalize_verifies(rm)
    ||| faults.writer_finish
    ||| (faults.backup_rename && s0.disk.client_db is Some)
    ||| faults.swap_rename
}

/// The completed snapshot directory a finalized restoration publishes: the
/// writer's chunk files plus the `MANIFEST` file.
pub open spec fn published_dir(rm: RestorationModel) -> Seq<crate::disk::FileModel> {
    dir_put(rm.writer, manifest_name(), spec_encode_manifest(rm.manifest))
}

/// What a successful finalization of the drained restoration `rm` leaves:
/// the service inactive with counters reset, the client database swapped to
/// the rebuilt state, the restoration tree gone, and the restored snapshot
/// published under `snapshot/current/` and served by a fresh reader.
pub open spec fn finalize_ok_post<E: Engine>(s1: Service<E>, rm: RestorationModel) -> bool {
    &&& s1.status is Inactive
    &&& s1.restoration is None
    &&& s1.state_chunks == 0 && s1.block_chunks == 0
    &&& s1.disk.client_db matches Some(db) && db@ == canon_state(rm.manifest.state_hashes, rm.state)
    &&& s1.disk.backup_db is None
    &&& s1.disk.restoration_db is None
    &&& !s1.disk.restoration_dir
    &&& s1.disk.current matches Some(cur) && {
        &&& cur@ == published_dir(rm)
        &&& dir_get(cur@, manifest_name()) == Some(spec_encode_manifest(rm.manifest))
        &&& forall|h: Seq<u8>| contains_hash(rm.manifest.state_hashes, h) || contains_hash(
            rm.manifest.block_hashes,
            h,
        ) ==> #[trigger] dir_has(cur@, hex_of(h))
    }
    &&& s1.reader matches Some(rd) && rd.manifest@ == rm.manifest && (s1.disk.current
        matches Some(cur2) && rd.dir@ == cur2@)
}

/// What a failed finalization of the drained restoration `rm` leaves,
/// before any caller tears the restoration tree down: the restoration is
/// consumed and the counters reset; the error names its cause exactly; and
/// which database and snapshot survive is fixed by where the failure
/// struck - before or during the swap, the old client database and the old
/// snapshot stand; after it, the client database is the rebuilt one and
/// only the republication is incomplete.
pub open spec fn finalize_err_post<E: Engine>(
    s0: Service<E>,
    s1: Service<E>,
    rm: RestorationModel,
    faults: IoFaults,
    e: Error,
) -> bool {
    &&& s1.restoration is None
    &&& s1.state_chunks == 0 && s1.block_chunks == 0
    &&& (s1.reader == s0.reader || s1.reader is None)
    &&& match e {
        Error::WrongStateRoot { expected, got } => {
            &&& expected@ == rm.manifest.state_root
            &&& got@ == state_root_of(rm.manifest.state_hashes, rm.state)
            &&& got@ != expected@
        },
        Error::MissingCode => {
            &&& state_root_of(rm.manifest.state_hashes, rm.state) == rm.manifest.state_root
            &&& state_missing_code(rm.state)
        },
        Error::Discontinuity => {
            &&& state_root_of(rm.manifest.state_hashes, rm.state) == rm.manifest.state_root
            &&& !state_missing_code(rm.state)
            &&& !(runs_glued(rm.blocks) && runs_end_at(rm.blocks, rm.manifest.block_number))
        },
        Error::Io => finalize_verifies(rm) && finalize_faulted(
            faults,
            s0.disk.client_db is Some,
        ),
        _ => false,
    }
    &&& (pre_swap_failure(s0, rm, faults) ==> {
        &&& s1.disk.client_db == s0.disk.client_db
        &&& s1.disk.current == s0.disk.current
        &&& s1.reader == s0.reader
    })
    &&& (!pre_swap_failure(s0, rm, faults) ==> {
        &&& s1.disk.client_db matches Some(db) && db@ == canon_state(
            rm.manifest.state_hashes,
            rm.state,
        )
        &&& s1.reader is None
        &&& (faults.clear_current ==> s1.disk.current is None)
        &&& ((!faults.clear_current && faults.move_files_at is Some) ==> ({
            let k = faults.move_files_at.unwrap();
            s1.disk.current matches Some(d) && d@ == (if k <= published_dir(rm).len() {
                published_dir(rm).take(k as int)
            } else {
                published_dir(rm)
            })
        }))
    })
}

/// The full outcome of one synchronous chunk feed, as `feed_state_chunk`,
/// `feed_block_chunk` and the executor deliver it: a no-op off the ongoing
/// path; the exact feed transition with the matching counter bumped while
/// chunks remain; the complete published snapshot once the sets drain and
/// finalization succeeds; and a torn-down `Failed` service on any error,
/// with the served snapshot and client database surviving every failure up
/// to and including the swap.
pub open spec fn feed_post<E: Engine>(
    s0: Service<E>,
    s1: Service<E>,
    h: Seq<u8>,
    c: Seq<u8>,
    is_state: bool,
    faults: IoFaults,
) -> bool {
    &&& same_config(s0, s1)
    &&& ((!(s0.status is Ongoing) || s0.restoration is None) ==> s1 == s0)
    &&& ((s0.status is Ongoing && s0.restoration is Some) ==> ({
        let rest = s0.restoration.unwrap();
        let (rm2, out) = feed_transition(s0.engine, rest@, h, c, is_state, faults.writer_chunk);
        &&& ((out is Corrupt || out is BadSeal || out is IoFailed) ==> {
            &&& s1.status is Failed
            &&& s1.restoration is None
            &&& !s1.disk.restoration_dir
            &&& s1.disk.restoration_db is None
            &&& s1.disk.backup_db is None
            &&& s1.state_chunks == s0.state_chunks && s1.block_chunks == s0.block_chunks
            &&& s1.reader == s0.reader
            &&& s1.disk.current == s0.disk.current
            &&& s1.disk.client_db == s0.disk.client_db
        })
        &&& ((out is Accepted || out is Ignored) && !rest_done(rm2) ==> {
            &&& s1.status is Ongoing
            &&& s1.restoration matches Some(r2) && r2@ == rm2
            &&& s1.state_chunks == s0.state_chunks + (if is_state && out is Accepted {
                1int
            } else {
                0int
            })
            &&& s1.block_chunks == s0.block_chunks + (if !is_state && out is Accepted {
                1int
            } else {
                0int
            })
            &&& s1.reader == s0.reader
            &&& s1.disk == s0.disk
        })
        &&& ((out is Accepted || out is Ignored) && rest_done(rm2) ==> (if finalize_verifies(rm2)
            && !finalize_faulted(faults, s0.disk.client_db is Some) {
            finalize_ok_post(s1, rm2)
        } else {
            {
                &&& s1.status is Failed
                &&& s1.restoration is None
                &&& !s1.disk.restoration_dir
                &&& s1.disk.restoration_db is None
                &&& s1.disk.backup_db is None
                &&& s1.state_chunks == 0 && s1.block_chunks == 0
                &&& (s1.reader == s0.reader || s1.reader is None)
                &&& (pre_swap_failure(s0, rm2, faults) ==> {
                    &&& s1.disk.client_db == s0.disk.client_db
                    &&& s1.disk.current == s0.disk.current
                    &&& s1.reader == s0.reader
                })
                &&& (!pre_swap_failure(s0, rm2, faults) ==> (s1.disk.client_db matches Some(db)
                    && db@ == canon_state(rm2.manifest.state_hashes, rm2.state)))
            }
        }))
    }))
}

/// The full outcome of a begin message: a fresh restoration over the
/// manifest with counters reset, or - when recreating the tree fails - no
/// restoration and an unchanged status; the served snapshot and client
/// database are untouched either way.
pub open spec fn begin_post<E: Engine>(
    s0: Service<E>,
    s1: Service<E>,
    m: crate::manifest::ManifestModel,
    faults: IoFaults,
) -> bool {
    &&& same_config(s0, s1)
    &&& s1.reader == s0.reader
    &&& s1.disk.current == s0.disk.current
    &&& s1.disk.client_db == s0.disk.client_db
    &&& (!faults.init_dirs ==> {
        &&& s1.restoration matches Some(rest) && rest@ == rest_init(m)
        &&& s1.status is Ongoing
        &&& s1.state_chunks == 0 && s1.block_chunks == 0
        &&& s1.disk.restoration_dir && s1.disk.restoration_db is Some
    })
    &&& (faults.init_dirs ==> {
        &&& s1.restoration is None
        &&& s1.status == s0.status
        &&& !s1.disk.restoration_dir
        &&& s1.disk.restoration_db is None
    })
}

impl<E: Engine> Service<E> {
    /// Create a new snapshot service over the given directory tree: open a
    /// reader over `snapshot/current/` if a parsable snapshot is there, and
    /// clear any leftover `restoration/` tree.
    pub fn new(engine: E, genesis_block: Vec<u8>, db_path: String, disk: Disk) -> (s: Service<E>)
        requires
            match disk.current {
                Some(d) => dir_wf(d@),
                None => true,
            },
        ensures
            service_wf(s),
            s.status is Inactive,
            s.restoration is None,
            s.state_chunks == 0 && s.block_chunks == 0,
            s.disk.current == disk.current,
            s.disk.client_db == disk.client_db,
            !s.disk.restoration_dir,
            s.disk.restoration_db is None,
            s.disk.backup_db is None,
            (s.reader is Some <==> (disk.current matches Some(d)
                && dir_get(d@, manifest_name()) is Some
                && crate::manifest::spec_decode_manifest(
                dir_get(d@, manifest_name()).unwrap(),
            ) is Some)),
            (s.reader matches Some(rd) ==> (disk.current matches Some(d) && rd.dir@ == d@
                && Some(rd.manifest@) == crate::manifest::spec_decode_manifest(
                dir_get(d@, manifest_name()).unwrap(),
            ))),
    {
        let reader = match &disk.current {
            Some(d) => match LooseReader::open(d.duplicate()) {
                Ok(rd) => Some(rd),
                Err(_) => None,
            },
            None => None,
        };
        Service {
            restoration: None,
            status: RestorationStatus::Inactive,
            reader,
            state_chunks: 0,
            block_chunks: 0,
            engine,
            genesis_block,
            db_path,
            disk: Disk {
                client_db: disk.client_db,
                backup_db: None,
                restoration_db: None,
                restoration_dir: false,
                current: disk.current,
            },
        }
    }

    /// The root snapshot path: `<chain root>/snapshot`.
    pub fn root_dir(&self) -> (r: String)
        ensures
            r@ == self.db_path@ + "/snapshot"@,
    {
        let mut dir = String::new();
        dir.append(self.db_path.as_str());
        dir.append("/snapshot");
        proof {
            assert(dir@ =~= self.db_path@ + "/snapshot"@);
        }
        dir
    }

    /// The served snapshot: `<chain root>/snapshot/current`.
    pub fn snapshot_dir(&self) -> (r: String)
        ensures
            r@ == self.db_path@ + "/snapshot"@ + "/current"@,
    {
        let mut dir = self.root_dir();
        dir.append("/current");
        dir
    }

    /// The transient restoration tree: `<chain root>/snapshot/restoration`.
    pub fn restoration_dir(&self) -> (r: String)
        ensures
            r@ == self.db_path@ + "/snapshot"@ + "/restoration"@,
    {
        let mut dir = self.root_dir();
        dir.append("/restoration");
        dir
    }

    /// The staging database: `<chain root>/snapshot/restoration/db`.
    pub fn restoration_db(&self) -> (r: String)
        ensures
            r@ == self.db_path@ + "/snapshot"@ + "/restoration"@ + "/db"@,
    {
        let mut dir = self.restoration_dir();
        dir.append("/db");
        dir
    }

    /// The snapshot being written: `<chain root>/snapshot/restoration/temp`.
    pub fn temp_recovery_dir(&self) -> (r: String)
        ensures
            r@ == self.db_path@ + "/snapshot"@ + "/restoration"@ + "/temp"@,
    {
        let mut dir = self.restoration_dir();
        dir.append("/temp");
        dir
    }

    /// The published status.
    pub fn status(&self) -> (r: RestorationStatus)
        ensures
            r == self.status,
    {
        self.status
    }

    /// The progress counters: accepted state and block chunks of the
    /// current attempt.
    pub fn chunks_done(&self) -> (r: (usize, usize))
        ensures
            r.0 == self.state_chunks && r.1 == self.block_chunks,
    {
        (self.state_chunks, self.block_chunks)
    }

    /// The manifest of the snapshot currently served, if one is: the parse
    /// of the `MANIFEST` file of `snapshot/current/`.
    pub fn manifest(&self) -> (r: Option<ManifestData>)
        requires
            service_wf(*self),
        ensures
            match r {
                Some(m) => {
                    &&& self.reader matches Some(rd) && m@ == rd.manifest@
                    &&& self.disk.current matches Some(c) && dir_get(c@, manifest_name()) is Some
                        && crate::manifest::spec_decode_manifest(
                        dir_get(c@, manifest_name()).unwrap(),
                    ) == Some(m@)
                },
                None => self.reader is None,
            },
    {
        match &self.reader {
            Some(rd) => Some(rd.manifest().duplicate()),
            None => None,
        }
    }

    /// The raw compressed bytes of a chunk of the served snapshot: the file
    /// named by the hex of the hash in `snapshot/current/`, exactly as
    /// persisted.  Absence of a reader or of the file collapses to `None`.
    pub fn chunk(&self, hash: &Hash256) -> (r: Option<Vec<u8>>)
        requires
            service_wf(*self),
        ensures
            match r {
                Some(v) => {
                    &&& self.reader matches Some(rd) && dir_get(rd.dir@, hex_of(hash@))
                        == Some(v@)
                    &&& self.disk.current matches Some(c) && dir_get(c@, hex_of(hash@))
                        == Some(v@)
                },
                None => self.reader is None || (self.reader matches Some(rd) && !dir_has(
                    rd.dir@,
                    hex_of(hash@),
                ) && (self.disk.current matches Some(c) && !dir_has(c@, hex_of(hash@)))),
            },
    {
        match &self.reader {
            Some(rd) => rd.chunk(hash),
            None => None,
        }
    }

    /// The message that asks the executor to begin a restoration.
    pub fn begin_restore(&self, manifest: ManifestData) -> (msg: ClientIoMessage)
        ensures
            msg matches ClientIoMessage::BeginRestoration(m) && m@ == manifest@,
    {
        ClientIoMessage::BeginRestoration(manifest)
    }

    /// The message that asks the executor to feed a raw state chunk.
    pub fn restore_state_chunk(&self, hash: Hash256, chunk: Vec<u8>) -> (msg: ClientIoMessage)
        ensures
            msg matches ClientIoMessage::FeedStateChunk(h, c) && h@ == hash@ && c@ == chunk@,
    {
        ClientIoMessage::FeedStateChunk(hash, chunk)
    }

    /// The message that asks the executor to feed a raw block chunk.
    pub fn restore_block_chunk(&self, hash: Hash256, chunk: Vec<u8>) -> (msg: ClientIoMessage)
        ensures
            msg matches ClientIoMessage::FeedBlockChunk(h, c) && h@ == hash@ && c@ == chunk@,
    {
        ClientIoMessage::FeedBlockChunk(hash, chunk)
    }

    /// Run one queued message, as the I/O executor does, in FIFO order:
    /// each message has exactly the outcome of its synchronous counterpart.
    pub fn handle_io_message(&mut self, msg: ClientIoMessage, faults: &IoFaults)
        requires
            service_wf(*old(self)),
        ensures
            service_wf(*final(self)),
            (msg matches ClientIoMessage::BeginRestoration(m) ==> begin_post(
                *old(self),
                *final(self),
                m@,
                *faults,
            )),
            (msg matches ClientIoMessage::FeedStateChunk(h, c) ==> feed_post(
                *old(self),
                *final(self),
                h@,
                c@,
                true,
                *faults,
            )),
            (msg matches ClientIoMessage::FeedBlockChunk(h, c) ==> feed_post(
                *old(self),
                *final(self),
                h@,
                c@,
                false,
                *faults,
            )),
    {
        match msg {
            ClientIoMessage::BeginRestoration(m) => {
                let _ = self.init_restore(m, faults);
            },
            ClientIoMessage::FeedStateChunk(h, c) => {
                self.feed_state_chunk(&h, c.as_slice(), faults);
            },
            ClientIoMessage::FeedBlockChunk(h, c) => {
                self.feed_block_chunk(&h, c.as_slice(), faults);
            },
        }
    }

    /// Initialize a restoration synchronously: tear down any existing one,
    /// recreate the `restoration/` tree, and open a fresh attempt over the
    /// manifest.  On failure the caller sees the error, no restoration is
    /// left, and the status is unchanged.
    pub fn init_restore(&mut self, manifest: ManifestData, faults: &IoFaults) -> (r: Result<
        (),
        Error,
    >)
        requires
            service_wf(*old(self)),
        ensures
            service_wf(*final(self)),
            same_config(*old(self), *final(self)),
            final(self).reader == old(self).reader,
            final(self).disk.current == old(self).disk.current,
            final(self).disk.client_db == old(self).disk.client_db,
            match r {
                Ok(()) => {
                    &&& !faults.init_dirs
                    &&& final(self).restoration matches Some(rest) && rest@ == rest_init(
                        manifest@,
                    )
                    &&& final(self).status is Ongoing
                    &&& final(self).state_chunks == 0 && final(self).block_chunks == 0
                    &&& final(self).disk.restoration_dir
                    &&& final(self).disk.restoration_db is Some
                },
                Err(e) => {
                    &&& e is Io && faults.init_dirs
                    &&& final(self).restoration is None
                    &&& final(self).status == old(self).status
                    &&& !final(self).disk.restoration_dir
                    &&& final(self).disk.restoration_db is None
                },
            },
            begin_post(*old(self), *final(self), manifest@, *faults),
    {
        self.restoration = None;
        self.disk.restoration_dir = false;
        self.disk.restoration_db = None;
        self.disk.backup_db = None;
        if faults.init_dirs {
            return Err(Error::Io);
        }
        self.disk.restoration_dir = true;
        self.disk.restoration_db = Some(Vec::new());
        let writer = LooseWriter::new();
        let genesis = crate::wire::bytes_from_slice(
            self.genesis_block.as_slice(),
            0,
            self.genesis_block.len(),
        );
        let rest = Restoration::new(manifest, genesis, writer);
        self.restoration = Some(rest);
        self.state_chunks = 0;
        self.block_chunks = 0;
        self.status = RestorationStatus::Ongoing;
        proof {
            crate::restoration::lemma_dedup_hashes(rest_init(manifest@).manifest.state_hashes);
            crate::restoration::lemma_dedup_hashes(rest_init(manifest@).manifest.block_hashes);
        }
        Ok(())
    }

    /// Abort an in-progress restoration: drop it, mark the service
    /// inactive, and clear the `restoration/` tree.  The served snapshot is
    /// untouched.
    pub fn abort_restore(&mut self)
        requires
            service_wf(*old(self)),
        ensures
            service_wf(*final(self)),
            final(self).restoration is None,
            final(self).status is Inactive,
            !final(self).disk.restoration_dir,
            final(self).disk.restoration_db is None,
            final(self).disk.current == old(self).disk.current,
            final(self).disk.client_db == old(self).disk.client_db,
            final(self).reader == old(self).reader,
            final(self).state_chunks == old(self).state_chunks,
            final(self).block_chunks == old(self).block_chunks,
            same_config(*old(self), *final(self)),
    {
        self.restoration = None;
        self.status = RestorationStatus::Inactive;
        self.disk.restoration_dir = false;
        self.disk.restoration_db = None;
        self.disk.backup_db = None;
    }
}


impl<E: Engine> Service<E> {
    /// Replace the client database with the freshly-restored staging
    /// database, keeping a backup of the old one for rollback: whatever
    /// fails, either the swap completed or the client database is exactly
    /// what it was.
    fn replace_client_db(&mut self, faults: &IoFaults) -> (r: Result<(), Error>)
        ensures
            final(self).restoration == old(self).restoration,
            final(self).status == old(self).status,
            final(self).reader == old(self).reader,
            final(self).state_chunks == old(self).state_chunks,
            final(self).block_chunks == old(self).block_chunks,
            final(self).disk.current == old(self).disk.current,
            final(self).disk.restoration_dir == old(self).disk.restoration_dir,
            same_config(*old(self), *final(self)),
            (r is Ok <==> !(faults.swap_rename || (faults.backup_rename && old(self).disk.client_db is Some))),
            match r {
                Ok(()) => {
                    &&& final(self).disk.client_db == old(self).disk.restoration_db
                    &&& final(self).disk.restoration_db is None
                    &&& final(self).disk.backup_db is None
                },
                Err(e) => {
                    &&& e is Io
                    &&& final(self).disk.client_db == old(self).disk.client_db
                    &&& final(self).disk.restoration_db == old(self).disk.restoration_db
                },
            },
    {
        self.disk.backup_db = None;
        let existed: bool;
        match self.disk.client_db.take() {
            Some(db) => {
                if faults.backup_rename {
                    self.disk.client_db = Some(db);
                    return Err(Error::Io);
                }
                self.disk.backup_db = Some(db);
                existed = true;
            },
            None => {
                existed = false;
            },
        }
        if faults.swap_rename {
            if existed {
                self.disk.client_db = self.disk.backup_db.take();
            }
            return Err(Error::Io);
        }
        self.disk.client_db = self.disk.restoration_db.take();
        if existed {
            self.disk.backup_db = None;
        }
        Ok(())
    }

    /// Finalize the restoration whose chunk sets are drained: verify it,
    /// swap the databases, publish the restored snapshot as
    /// `snapshot/current/`, and reopen the reader over it.  Progress
    /// counters reset.  Whatever fails before the swap completes leaves the
    /// served snapshot and the client database untouched.
    fn finalize_restoration(&mut self, faults: &IoFaults) -> (r: Result<(), Error>)
        requires
            service_wf(*old(self)),
            old(self).restoration matches Some(rest) && rest@.state_left.len() == 0
                && rest@.block_left.len() == 0,
        ensures
            service_wf(*final(self)),
            same_config(*old(self), *final(self)),
            ({
                let rm = old(self).restoration.unwrap()@;
                &&& (r is Ok <==> (finalize_verifies(rm) && !finalize_faulted(
                    *faults,
                    old(self).disk.client_db is Some,
                )))
                &&& match r {
                    Ok(()) => finalize_ok_post(*final(self), rm),
                    Err(e) => {
                        &&& final(self).status == old(self).status
                        &&& finalize_err_post(*old(self), *final(self), rm, *faults, e)
                    },
                }
            }),
    {
        self.state_chunks = 0;
        self.block_chunks = 0;
        let rest = match self.restoration.take() {
            Some(rest) => rest,
            None => {
                proof {
                    assert(false);
                }
                return Err(Error::Io);
            },
        };
        let ghost rm = rest@;
        let (dir, db) = match rest.finalize(faults.writer_finish) {
            Ok(out) => out,
            Err(e) => {
                return Err(e);
            },
        };
        self.disk.restoration_db = Some(db);
        match self.replace_client_db(faults) {
            Ok(()) => (),
            Err(e) => {
                return Err(e);
            },
        };
        self.reader = None;
        if faults.clear_current {
            self.disk.current = None;
            return Err(Error::Io);
        }
        match faults.move_files_at {
            Some(k) => {
                let ghost full = dir@;
                let mut partial = dir;
                let n = partial.files.len();
                let moved = if k < n { k } else { n };
                partial.files.truncate(moved);
                proof {
                    assert(partial@ =~= full.take(moved as int));
                    assert(full.take(moved as int) == (if k <= full.len() {
                        full.take(k as int)
                    } else {
                        full
                    })) by {
                        if k > full.len() {
                            assert(full.take(moved as int) =~= full);
                        }
                    }
                    assert(dir_wf(partial@));
                }
                self.disk.current = Some(partial);
                return Err(Error::Io);
            },
            None => {},
        }
        let published = dir.duplicate();
        self.disk.current = Some(dir);
        self.disk.restoration_dir = false;
        self.disk.restoration_db = None;
        self.disk.backup_db = None;
        proof {
            lemma_manifest_round_trip(rm.manifest);
        }
        let rd = match LooseReader::open(published) {
            Ok(rd) => rd,
            Err(_) => {
                proof {
                    assert(false);
                }
                return Err(Error::Io);
            },
        };
        proof {
            assert(rd.manifest@ == rm.manifest);
        }
        self.reader = Some(rd);
        self.status = RestorationStatus::Inactive;
        Ok(())
    }

    /// Feed a chunk of either kind: a no-op unless a restoration is ongoing;
    /// otherwise hand it to the restoration, count it if it was accepted,
    /// and finalize once both chunk sets drain.  The progress counters never
    /// shrink except by the reset of a successful finalize.
    fn feed_chunk(
        &mut self,
        hash: &Hash256,
        chunk: &[u8],
        is_state: bool,
        faults: &IoFaults,
    ) -> (r: Result<(), Error>)
        requires
            service_wf(*old(self)),
        ensures
            service_frame_wf(*final(self)),
            same_config(*old(self), *final(self)),
            r is Ok ==> service_wf(*final(self)),
            (!(old(self).status is Ongoing) || old(self).restoration is None) ==> (r is Ok
                && *final(self) == *old(self)),
            ((old(self).status is Ongoing && old(self).restoration is Some) ==> ({
                let rest = old(self).restoration.unwrap();
                let (rm2, out) = feed_transition(
                    old(self).engine,
                    rest@,
                    hash@,
                    chunk@,
                    is_state,
                    faults.writer_chunk,
                );
                &&& (r is Ok <==> ((out is Accepted || out is Ignored) && (rest_done(rm2)
                    ==> (finalize_verifies(rm2) && !finalize_faulted(
                    *faults,
                    old(self).disk.client_db is Some,
                )))))
                &&& match r {
                    Ok(()) => {
                        &&& (!rest_done(rm2) ==> {
                            &&& final(self).status is Ongoing
                            &&& final(self).restoration matches Some(r2) && r2@ == rm2
                            &&& final(self).state_chunks == old(self).state_chunks + (
                            if is_state && out is Accepted {
                                1int
                            } else {
                                0int
                            })
                            &&& final(self).block_chunks == old(self).block_chunks + (
                            if !is_state && out is Accepted {
                                1int
                            } else {
                                0int
                            })
                            &&& final(self).reader == old(self).reader
                            &&& final(self).disk == old(self).disk
                        })
                        &&& (rest_done(rm2) ==> finalize_ok_post(*final(self), rm2))
                    },
                    Err(e) => {
                        ||| ({
                            &&& ((out is Corrupt && e is CorruptChunk) || (out is BadSeal
                                && e is InvalidSeal) || (out is IoFailed && e is Io))
                            &&& final(self).status == old(self).status
                            &&& final(self).restoration matches Some(r2) && r2@ == rm2
                            &&& final(self).state_chunks == old(self).state_chunks
                            &&& final(self).block_chunks == old(self).block_chunks
                            &&& final(self).reader == old(self).reader
                            &&& final(self).disk == old(self).disk
                        })
                        ||| ({
                            &&& (out is Accepted || out is Ignored)
                            &&& rest_done(rm2)
                            &&& final(self).status == old(self).status
                            &&& finalize_err_post(*old(self), *final(self), rm2, *faults, e)
                        })
                    },
                }
            })),
    {
        if !(matches!(self.status, RestorationStatus::Ongoing)) {
            return Ok(());
        }
        let accepted: bool;
        let done: bool;
        match &mut self.restoration {
            Some(rest) => {
                let cap = if is_state {
                    rest.manifest.state_hashes.len()
                } else {
                    rest.manifest.block_hashes.len()
                };
                let fed = if is_state {
                    rest.feed_state(hash, chunk, faults.writer_chunk)
                } else {
                    rest.feed_blocks(hash, chunk, &self.engine, faults.writer_chunk)
                };
                match fed {
                    Ok(a) => {
                        accepted = a;
                        done = rest.is_done();
                    },
                    Err(e) => {
                        return Err(e);
                    },
                }
            },
            None => {
                return Ok(());
            },
        }
        if accepted {
            if is_state {
                self.state_chunks = self.state_chunks + 1;
            } else {
                self.block_chunks = self.block_chunks + 1;
            }
        }
        if done {
            proof {
                let rest0 = old(self).restoration.unwrap();
                let rm2 = feed_transition(
                    old(self).engine,
                    rest0@,
                    hash@,
                    chunk@,
                    is_state,
                    faults.writer_chunk,
                ).0;
                assert(self.restoration.unwrap()@ == rm2);
            }
            return self.finalize_restoration(faults);
        }
        Ok(())
    }

    /// Feed a raw state chunk synchronously.  Off the ongoing path the call
    /// is a no-op; an expected chunk is fed exactly as `rest_feed_state`
    /// says, bumping the counter once per distinct accepted chunk; the last
    /// chunk finalizes and publishes; and any error tears the attempt down
    /// to `Failed`, with the served snapshot and the client database
    /// surviving every failure up to and including the swap.
    pub fn feed_state_chunk(&mut self, hash: &Hash256, chunk: &[u8], faults: &IoFaults)
        requires
            service_wf(*old(self)),
        ensures
            service_wf(*final(self)),
            feed_post(*old(self), *final(self), hash@, chunk@, true, *faults),
    {
        match self.feed_chunk(hash, chunk, true, faults) {
            Ok(()) => (),
            Err(_) => {
                self.restoration = None;
                self.status = RestorationStatus::Failed;
                self.disk.restoration_dir = false;
                self.disk.restoration_db = None;
                self.disk.backup_db = None;
            },
        }
    }

    /// Feed a raw block chunk synchronously, with the same outcome as
    /// [`Self::feed_state_chunk`] over the block-side transition.
    pub fn feed_block_chunk(&mut self, hash: &Hash256, chunk: &[u8], faults: &IoFaults)
        requires
            service_wf(*old(self)),
        ensures
            service_wf(*final(self)),
            feed_post(*old(self), *final(self), hash@, chunk@, false, *faults),
    {
        match self.feed_chunk(hash, chunk, false, faults) {
            Ok(()) => (),
            Err(_) => {
                self.restoration = None;
                self.status = RestorationStatus::Failed;
                self.disk.restoration_dir = false;
                self.disk.restoration_db = None;
                self.disk.backup_db = None;
            },
        }
    }
}

} // verus!
