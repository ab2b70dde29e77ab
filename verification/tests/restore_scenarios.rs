//! End-to-end scenarios of the restoration lifecycle.

use snapshot_service::disk::Disk;
use snapshot_service::engine::{NullEngine, MarkerSealEngine};
use snapshot_service::hash::{Hash256, keccak256};
use snapshot_service::manifest::ManifestData;
use snapshot_service::service::{IoFaults, RestorationStatus, Service};

fn h(n: u8) -> Hash256 {
    Hash256 { bytes: [n; 32] }
}

fn compress(raw: &[u8]) -> Vec<u8> {
    snap::raw::Encoder::new().compress_vec(raw).unwrap()
}

/// One state entry without code.
fn entry(key: u8, data: &[u8]) -> Vec<u8> {
    let mut v = Vec::new();
    v.extend_from_slice(&[key; 32]);
    v.extend_from_slice(&(data.len() as u32).to_le_bytes());
    v.extend_from_slice(data);
    v.push(0);
    v
}

/// One state entry whose code is a reference to `code_hash`.
fn entry_linked(key: u8, data: &[u8], code_hash: u8) -> Vec<u8> {
    let mut v = Vec::new();
    v.extend_from_slice(&[key; 32]);
    v.extend_from_slice(&(data.len() as u32).to_le_bytes());
    v.extend_from_slice(data);
    v.push(1);
    v.extend_from_slice(&[code_hash; 32]);
    v
}

/// A run of blocks: consecutive numbers from `first`, bodies as given.
fn block_run(first: u64, start_hash: u8, parent: u8, bodies: &[&[u8]]) -> Vec<u8> {
    let mut v = Vec::new();
    v.extend_from_slice(&first.to_le_bytes());
    v.extend_from_slice(&(bodies.len() as u32).to_le_bytes());
    let mut prev = [parent; 32];
    for (i, body) in bodies.iter().enumerate() {
        let hash = [start_hash + i as u8; 32];
        v.extend_from_slice(&hash);
        v.extend_from_slice(&prev);
        v.extend_from_slice(&(body.len() as u32).to_le_bytes());
        v.extend_from_slice(body);
        prev = hash;
    }
    v
}

/// The canonical bytes of a run of no-code entries, as the state root
/// hashes them.
fn canon(entries: &[(u8, &[u8])]) -> Vec<u8> {
    let mut v = Vec::new();
    for (key, data) in entries {
        v.extend_from_slice(&[*key; 32]);
        v.extend_from_slice(&(data.len() as u32).to_le_bytes());
        v.extend_from_slice(data);
    }
    v
}

fn fresh_service() -> Service<NullEngine> {
    Service::new(
        NullEngine,
        vec![0u8, 1, 2],
        String::from("chainroot"),
        Disk {
            client_db: Some(vec![7u8, 7, 7]),
            backup_db: None,
            restoration_db: None,
            restoration_dir: false,
            current: None,
        },
    )
}

struct Fixture {
    manifest: ManifestData,
    c1: Vec<u8>,
    c2: Vec<u8>,
    cb: Vec<u8>,
}

/// Two state chunks, one block chunk, and the matching root.
fn fixture() -> Fixture {
    let p1 = entry(0x11, b"alpha");
    let p2 = entry(0x22, b"beta");
    let pb = block_run(1, 0x40, 0x30, &[b"body-one"]);
    let root = keccak256(&canon(&[(0x11, b"alpha"), (0x22, b"beta")]));
    Fixture {
        manifest: ManifestData {
            state_hashes: vec![h(1), h(2)],
            block_hashes: vec![h(9)],
            state_root: root,
            block_number: 1,
            engine_data: vec![0xEE],
        },
        c1: compress(&p1),
        c2: compress(&p2),
        cb: compress(&pb),
    }
}

#[test]
fn happy_path() {
    let fx = fixture();
    let f = IoFaults::none();
    let mut svc = fresh_service();
    assert_eq!(svc.status(), RestorationStatus::Inactive);
    svc.init_restore(fx.manifest.duplicate(), &f).unwrap();
    assert_eq!(svc.status(), RestorationStatus::Ongoing);

    svc.feed_state_chunk(&h(1), &fx.c1, &f);
    assert_eq!(svc.chunks_done(), (1, 0));
    assert_eq!(svc.status(), RestorationStatus::Ongoing);
    svc.feed_state_chunk(&h(2), &fx.c2, &f);
    assert_eq!(svc.chunks_done(), (2, 0));
    // Two chunk files persisted so far; the block chunk makes it three.
    assert_eq!(svc.restoration.as_ref().unwrap().writer.dir.len(), 2);
    svc.feed_block_chunk(&h(9), &fx.cb, &f);

    // The last chunk finalizes: counters reset, status back to inactive.
    assert_eq!(svc.status(), RestorationStatus::Inactive);
    assert_eq!(svc.chunks_done(), (0, 0));
    assert!(svc.restoration.is_none());

    // The published snapshot holds the three chunk files and the manifest.
    let cur = svc.disk.current.as_ref().unwrap();
    assert_eq!(cur.len(), 4);
    let m = svc.manifest().unwrap();
    assert_eq!(m.state_hashes, fx.manifest.state_hashes);
    assert_eq!(m.block_hashes, fx.manifest.block_hashes);
    assert!(m.state_root == fx.manifest.state_root);
    assert_eq!(m.block_number, 1);
    assert_eq!(m.engine_data, vec![0xEE]);
    assert_eq!(svc.chunk(&h(1)).unwrap(), fx.c1);
    assert_eq!(svc.chunk(&h(2)).unwrap(), fx.c2);
    assert_eq!(svc.chunk(&h(9)).unwrap(), fx.cb);

    // The client database now holds the restored state.
    let db = svc.disk.client_db.as_ref().unwrap();
    assert_eq!(db, &canon(&[(0x11, b"alpha"), (0x22, b"beta")]));
}

#[test]
fn duplicate_chunk_counted_once() {
    let fx = fixture();
    let f = IoFaults::none();
    let mut svc = fresh_service();
    svc.init_restore(fx.manifest.duplicate(), &f).unwrap();
    svc.feed_state_chunk(&h(1), &fx.c1, &f);
    svc.feed_state_chunk(&h(1), &fx.c1, &f);
    assert_eq!(svc.chunks_done(), (1, 0));
    svc.feed_state_chunk(&h(2), &fx.c2, &f);
    svc.feed_block_chunk(&h(9), &fx.cb, &f);
    assert_eq!(svc.status(), RestorationStatus::Inactive);
    assert_eq!(svc.chunk(&h(1)).unwrap(), fx.c1);
    assert_eq!(svc.disk.current.as_ref().unwrap().len(), 4);
}

#[test]
fn unknown_chunk_is_a_noop() {
    let fx = fixture();
    let f = IoFaults::none();
    let mut svc = fresh_service();
    svc.init_restore(fx.manifest.duplicate(), &f).unwrap();
    svc.feed_state_chunk(&h(0x77), &fx.c1, &f);
    assert_eq!(svc.status(), RestorationStatus::Ongoing);
    assert_eq!(svc.chunks_done(), (0, 0));
    assert_eq!(svc.restoration.as_ref().unwrap().writer.dir.len(), 0);
}

#[test]
fn wrong_root_fails_and_preserves_snapshot() {
    let fx = fixture();
    let f = IoFaults::none();
    let mut svc = fresh_service();
    let mut manifest = fx.manifest.duplicate();
    manifest.state_root = h(0xAA);
    svc.init_restore(manifest, &f).unwrap();
    svc.feed_state_chunk(&h(1), &fx.c1, &f);
    svc.feed_state_chunk(&h(2), &fx.c2, &f);
    svc.feed_block_chunk(&h(9), &fx.cb, &f);
    assert_eq!(svc.status(), RestorationStatus::Failed);
    assert!(svc.restoration.is_none());
    assert!(!svc.disk.restoration_dir);
    assert!(svc.disk.current.is_none());
    assert_eq!(svc.disk.client_db.as_ref().unwrap(), &vec![7u8, 7, 7]);
}

#[test]
fn abort_midstream_then_restart() {
    let fx = fixture();
    let f = IoFaults::none();
    let mut svc = fresh_service();
    svc.init_restore(fx.manifest.duplicate(), &f).unwrap();
    svc.feed_state_chunk(&h(1), &fx.c1, &f);
    assert_eq!(svc.chunks_done(), (1, 0));
    svc.abort_restore();
    assert_eq!(svc.status(), RestorationStatus::Inactive);
    assert!(svc.restoration.is_none());
    assert!(!svc.disk.restoration_dir);
    assert!(svc.disk.current.is_none());
    svc.init_restore(fx.manifest.duplicate(), &f).unwrap();
    assert_eq!(svc.chunks_done(), (0, 0));
    // The restarted run retraces the uninterrupted one bit for bit.
    svc.feed_state_chunk(&h(1), &fx.c1, &f);
    svc.feed_state_chunk(&h(2), &fx.c2, &f);
    svc.feed_block_chunk(&h(9), &fx.cb, &f);
    assert_eq!(svc.status(), RestorationStatus::Inactive);
    let mut plain = fresh_service();
    plain.init_restore(fx.manifest.duplicate(), &f).unwrap();
    plain.feed_state_chunk(&h(1), &fx.c1, &f);
    plain.feed_state_chunk(&h(2), &fx.c2, &f);
    plain.feed_block_chunk(&h(9), &fx.cb, &f);
    let a = svc.disk.current.as_ref().unwrap();
    let b = plain.disk.current.as_ref().unwrap();
    assert_eq!(a.files.len(), b.files.len());
    for i in 0..a.files.len() {
        assert_eq!(a.files[i].name, b.files[i].name);
        assert_eq!(a.files[i].bytes, b.files[i].bytes);
    }
}

#[test]
fn crash_between_renames_rolls_back() {
    let fx = fixture();
    let f = IoFaults::none();
    let mut svc = fresh_service();
    svc.init_restore(fx.manifest.duplicate(), &f).unwrap();
    svc.feed_state_chunk(&h(1), &fx.c1, &f);
    svc.feed_state_chunk(&h(2), &fx.c2, &f);
    let mut crash = IoFaults::none();
    crash.swap_rename = true;
    svc.feed_block_chunk(&h(9), &fx.cb, &crash);
    assert_eq!(svc.status(), RestorationStatus::Failed);
    // The recovery rename restored the original client database.
    assert_eq!(svc.disk.client_db.as_ref().unwrap(), &vec![7u8, 7, 7]);
    assert!(svc.disk.backup_db.is_none());
    assert!(svc.disk.current.is_none());
}

#[test]
fn empty_manifest_finalizes_on_first_feed() {
    let f = IoFaults::none();
    let mut svc = fresh_service();
    let manifest = ManifestData {
        state_hashes: vec![],
        block_hashes: vec![],
        state_root: keccak256(&[]),
        block_number: 0,
        engine_data: vec![],
    };
    svc.init_restore(manifest, &f).unwrap();
    assert_eq!(svc.status(), RestorationStatus::Ongoing);
    // Any feed attempt notices that nothing is left and finalizes.
    svc.feed_state_chunk(&h(0x55), &compress(&entry(1, b"x")), &f);
    assert_eq!(svc.status(), RestorationStatus::Inactive);
    assert!(svc.manifest().is_some());
}

#[test]
fn finalize_waits_for_nonempty_set() {
    let fx = fixture();
    let f = IoFaults::none();
    let mut svc = fresh_service();
    let manifest = ManifestData {
        state_hashes: vec![],
        block_hashes: vec![h(9)],
        state_root: keccak256(&[]),
        block_number: 1,
        engine_data: vec![],
    };
    svc.init_restore(manifest, &f).unwrap();
    // State set empty, block set not: feeds that drain nothing keep waiting.
    svc.feed_state_chunk(&h(0x55), &fx.c1, &f);
    assert_eq!(svc.status(), RestorationStatus::Ongoing);
    svc.feed_block_chunk(&h(9), &fx.cb, &f);
    assert_eq!(svc.status(), RestorationStatus::Inactive);
}

#[test]
fn corrupt_chunk_fails_restoration() {
    let fx = fixture();
    let f = IoFaults::none();
    let mut svc = fresh_service();
    svc.init_restore(fx.manifest.duplicate(), &f).unwrap();
    svc.feed_state_chunk(&h(1), &[0xFF, 0xFF, 0xFF, 0xFF], &f);
    assert_eq!(svc.status(), RestorationStatus::Failed);
    assert!(svc.restoration.is_none());
}

#[test]
fn invalid_seal_fails_restoration() {
    let f = IoFaults::none();
    let p1 = entry(0x11, b"alpha");
    let root = keccak256(&canon(&[(0x11, b"alpha")]));
    // The engine insists on bodies starting with its marker.
    let pb = block_run(1, 0x40, 0x30, &[b"\x02sealed-wrong"]);
    let manifest = ManifestData {
        state_hashes: vec![h(1)],
        block_hashes: vec![h(9)],
        state_root: root,
        block_number: 1,
        engine_data: vec![],
    };
    let mut svc = Service::new(
        MarkerSealEngine { marker: 1 },
        vec![0u8],
        String::from("chainroot"),
        Disk {
            client_db: None,
            backup_db: None,
            restoration_db: None,
            restoration_dir: false,
            current: None,
        },
    );
    svc.init_restore(manifest, &f).unwrap();
    svc.feed_state_chunk(&h(1), &compress(&p1), &f);
    svc.feed_block_chunk(&h(9), &compress(&pb), &f);
    assert_eq!(svc.status(), RestorationStatus::Failed);
}

#[test]
fn out_of_order_runs_glue() {
    let f = IoFaults::none();
    let p1 = entry(0x11, b"alpha");
    let root = keccak256(&canon(&[(0x11, b"alpha")]));
    // Two runs: blocks 1..=2 and 3..=4; the second arrives first.
    let run_a = block_run(1, 0x40, 0x30, &[b"a", b"b"]);
    let run_b = block_run(3, 0x42, 0x41, &[b"c", b"d"]);
    let manifest = ManifestData {
        state_hashes: vec![h(1)],
        block_hashes: vec![h(8), h(9)],
        state_root: root,
        block_number: 4,
        engine_data: vec![],
    };
    let mut svc = fresh_service();
    svc.init_restore(manifest, &f).unwrap();
    svc.feed_block_chunk(&h(9), &compress(&run_b), &f);
    svc.feed_block_chunk(&h(8), &compress(&run_a), &f);
    svc.feed_state_chunk(&h(1), &compress(&p1), &f);
    assert_eq!(svc.status(), RestorationStatus::Inactive);
}

#[test]
fn gap_between_runs_is_a_discontinuity() {
    let f = IoFaults::none();
    let p1 = entry(0x11, b"alpha");
    let root = keccak256(&canon(&[(0x11, b"alpha")]));
    // Runs 1..=2 and 4..=5 leave block 3 missing.
    let run_a = block_run(1, 0x40, 0x30, &[b"a", b"b"]);
    let run_b = block_run(4, 0x42, 0x41, &[b"c", b"d"]);
    let manifest = ManifestData {
        state_hashes: vec![h(1)],
        block_hashes: vec![h(8), h(9)],
        state_root: root,
        block_number: 5,
        engine_data: vec![],
    };
    let mut svc = fresh_service();
    svc.init_restore(manifest, &f).unwrap();
    svc.feed_block_chunk(&h(8), &compress(&run_a), &f);
    svc.feed_block_chunk(&h(9), &compress(&run_b), &f);
    svc.feed_state_chunk(&h(1), &compress(&p1), &f);
    assert_eq!(svc.status(), RestorationStatus::Failed);
}

#[test]
fn missing_code_fails_finalize() {
    let f = IoFaults::none();
    let p1 = entry_linked(0x11, b"alpha", 0xC0);
    let root = keccak256(&canon(&[(0x11, b"alpha")]));
    let manifest = ManifestData {
        state_hashes: vec![h(1)],
        block_hashes: vec![],
        state_root: root,
        block_number: 0,
        engine_data: vec![],
    };
    let mut svc = fresh_service();
    svc.init_restore(manifest, &f).unwrap();
    svc.feed_state_chunk(&h(1), &compress(&p1), &f);
    assert_eq!(svc.status(), RestorationStatus::Failed);
}

#[test]
fn writer_fault_fails_the_feed() {
    let fx = fixture();
    let mut faulty = IoFaults::none();
    faulty.writer_chunk = true;
    let mut svc = fresh_service();
    svc.init_restore(fx.manifest.duplicate(), &IoFaults::none()).unwrap();
    svc.feed_state_chunk(&h(1), &fx.c1, &faulty);
    assert_eq!(svc.status(), RestorationStatus::Failed);
}

#[test]
fn partial_move_leaves_partial_snapshot() {
    let fx = fixture();
    let f = IoFaults::none();
    let mut svc = fresh_service();
    svc.init_restore(fx.manifest.duplicate(), &f).unwrap();
    svc.feed_state_chunk(&h(1), &fx.c1, &f);
    svc.feed_state_chunk(&h(2), &fx.c2, &f);
    let mut crash = IoFaults::none();
    crash.move_files_at = Some(1);
    svc.feed_block_chunk(&h(9), &fx.cb, &crash);
    assert_eq!(svc.status(), RestorationStatus::Failed);
    // The swap already happened: the client database is the restored one.
    assert_eq!(
        svc.disk.client_db.as_ref().unwrap(),
        &canon(&[(0x11, b"alpha"), (0x22, b"beta")])
    );
    // Only one file made it into the republished directory.
    assert_eq!(svc.disk.current.as_ref().unwrap().len(), 1);
    assert!(svc.manifest().is_none());
}

#[test]
fn message_driven_restore() {
    let fx = fixture();
    let f = IoFaults::none();
    let mut svc = fresh_service();
    let begin = svc.begin_restore(fx.manifest.duplicate());
    let m1 = svc.restore_state_chunk(h(1), fx.c1.clone());
    let m2 = svc.restore_state_chunk(h(2), fx.c2.clone());
    let m3 = svc.restore_block_chunk(h(9), fx.cb.clone());
    svc.handle_io_message(begin, &f);
    assert_eq!(svc.status(), RestorationStatus::Ongoing);
    svc.handle_io_message(m1, &f);
    svc.handle_io_message(m2, &f);
    assert_eq!(svc.chunks_done(), (2, 0));
    svc.handle_io_message(m3, &f);
    assert_eq!(svc.status(), RestorationStatus::Inactive);
    assert_eq!(svc.chunk(&h(9)).unwrap(), fx.cb);
}
