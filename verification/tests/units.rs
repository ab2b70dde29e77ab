//! Unit tests of the codecs, the loose format, and the small helpers.

use snapshot_service::codec::decompress_into;
use snapshot_service::crypto::derive_mac;
use snapshot_service::dapps::{main_page, redirection_address, random_filename};
use snapshot_service::disk::DirFiles;
use snapshot_service::errors::Error;
use snapshot_service::hash::{Hash256, hex_bytes, keccak256};
use snapshot_service::ipc_urls::{with_base, hypervisor};
use snapshot_service::loose::{LooseReader, LooseWriter};
use snapshot_service::manifest::{ManifestData, encode_manifest, decode_manifest};

fn h(n: u8) -> Hash256 {
    Hash256 { bytes: [n; 32] }
}

#[test]
fn manifest_codec_round_trip() {
    let m = ManifestData {
        state_hashes: vec![h(1), h(2)],
        block_hashes: vec![h(9)],
        state_root: h(3),
        block_number: 42,
        engine_data: vec![0xDE, 0xAD],
    };
    let bytes = encode_manifest(&m);
    let d = decode_manifest(&bytes).unwrap();
    assert_eq!(d.state_hashes, m.state_hashes);
    assert_eq!(d.block_hashes, m.block_hashes);
    assert!(d.state_root == m.state_root);
    assert_eq!(d.block_number, 42);
    assert_eq!(d.engine_data, vec![0xDE, 0xAD]);
}

#[test]
fn manifest_decode_rejects_garbage() {
    assert!(decode_manifest(&[]).is_none());
    assert!(decode_manifest(&[1, 2, 3]).is_none());
    let m = ManifestData {
        state_hashes: vec![h(1)],
        block_hashes: vec![],
        state_root: h(3),
        block_number: 1,
        engine_data: vec![],
    };
    let mut bytes = encode_manifest(&m);
    bytes.push(0);
    assert!(decode_manifest(&bytes).is_none(), "trailing byte must be rejected");
}

#[test]
fn hex_spelling() {
    assert_eq!(hex_bytes(&[0x00, 0x1A, 0xFF]), b"001aff".to_vec());
    let name = h(0xAB).hex_name();
    assert_eq!(name.len(), 64);
    assert!(name.iter().all(|&b| b == b'a' || b == b'b'));
}

#[test]
fn keccak_is_the_reference_digest() {
    // The keccak-256 of the empty string, as every Ethereum client knows it.
    let d = keccak256(&[]);
    assert_eq!(
        hex_bytes(&d.bytes),
        b"c5d2460186f7233c927e7db2dcc703c0e500b653ca82273b7bfad8045d85a470".to_vec()
    );
}

#[test]
fn snappy_round_trip_and_corrupt() {
    let raw = b"the quick brown fox jumps over the lazy dog".repeat(8);
    let compressed = snap::raw::Encoder::new().compress_vec(&raw).unwrap();
    let mut scratch = Vec::new();
    let len = decompress_into(&compressed, &mut scratch).unwrap();
    assert_eq!(&scratch[..len], &raw[..]);
    let r = decompress_into(&[0xFF, 0xFE, 0xFD], &mut scratch);
    assert!(matches!(r, Err(Error::CorruptChunk)));
}

#[test]
fn loose_writer_reader_round_trip() {
    let m = ManifestData {
        state_hashes: vec![h(1)],
        block_hashes: vec![],
        state_root: h(3),
        block_number: 5,
        engine_data: vec![],
    };
    let mut w = LooseWriter::new();
    w.write_chunk(&h(1), &[10, 20, 30], false).unwrap();
    // Rewriting the same hash is a safe overwrite.
    w.write_chunk(&h(1), &[10, 20, 31], false).unwrap();
    w.finish(&m, false).unwrap();
    assert_eq!(w.dir.len(), 2);
    let rd = LooseReader::open(w.dir).unwrap();
    assert_eq!(rd.manifest().block_number, 5);
    assert_eq!(rd.chunk(&h(1)).unwrap(), vec![10, 20, 31]);
    assert!(rd.chunk(&h(2)).is_none());
}

#[test]
fn reader_needs_a_manifest() {
    assert!(LooseReader::open(DirFiles::empty()).is_err());
}

#[test]
fn derive_mac_concatenates() {
    let left = [0x11u8; 16];
    let mac = derive_mac(&left, &[0xA0, 0xA1]);
    let mut expected = vec![0x11u8; 16];
    expected.extend_from_slice(&[0xA0, 0xA1]);
    assert_eq!(mac, expected);
}

#[test]
fn dapps_helpers() {
    assert_eq!(main_page(), "home");
    assert_eq!(redirection_address(true, "status"), "http://status.parity/");
    assert_eq!(redirection_address(false, "status"), "/status/");
    let name = random_filename();
    assert_eq!(name.len(), 12);
    assert!(name.chars().all(|c| c.is_ascii_alphanumeric()));
    assert_ne!(random_filename(), random_filename());
}

#[test]
fn ipc_url_with_base() {
    assert_eq!(with_base("/data", "parity-sync.ipc"), "ipc:///data/parity-sync.ipc");
}

#[test]
fn no_supervisor_in_this_build() {
    assert!(hypervisor("/data").is_none());
}
