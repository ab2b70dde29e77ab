//! A snapshot restoration service for a blockchain client.
//!
//! The service rebuilds a node's world state and block history from a
//! compact, chunked snapshot and atomically swaps the reconstructed
//! databases into the client's data directory.  Chunks are
//! snappy-compressed and content-addressed; a manifest lists the expected
//! chunk hashes and the state root the rebuilt trie must reach.
//!
//! The on-disk directory tree the service manages is modelled explicitly
//! (see [`disk`]), so the whole lifecycle - ingest, verification, the
//! crash-safe database swap and the publication of the restored snapshot -
//! is verified for every pattern of I/O failures the environment may
//! produce.

pub mod chunks;
pub mod codec;
pub mod crypto;
pub mod dapps;
pub mod disk;
pub mod engine;
pub mod errors;
pub mod hash;
pub mod ipc_urls;
pub mod laws;
pub mod loose;
pub mod manifest;
pub mod rebuild;
pub mod restoration;
pub mod service;
pub mod wire;
