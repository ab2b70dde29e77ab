//! The loose snapshot format: a flat directory holding one `MANIFEST` file
//! plus one file per chunk, whose basename is the hex spelling of the
//! chunk's content hash and whose contents are the raw compressed chunk.

use vstd::prelude::*;
use crate::disk::{DirFiles, FileModel, dir_has, dir_get, dir_wf, dir_put, lemma_dir_put};
use crate::errors::Error;
use crate::hash::{Hash256, hex_of};
use crate::manifest::{ManifestData, ManifestModel, spec_encode_manifest, spec_decode_manifest,
    encode_manifest, decode_manifest};

verus! {

/// The basename of the manifest file.
pub open spec fn manifest_name() -> Seq<u8> {
    seq![77u8, 65u8, 78u8, 73u8, 70u8, 69u8, 83u8, 84u8]
}

/// Build the basename of the manifest file: the ASCII bytes of `MANIFEST`.
pub fn manifest_file_name() -> (r: Vec<u8>)
    ensures
        r@ == manifest_name(),
{
    let mut v: Vec<u8> = Vec::new();
    v.push(77);
    v.push(65);
    v.push(78);
    v.push(73);
    v.push(70);
    v.push(69);
    v.push(83);
    v.push(84);
    proof {
        assert(v@ =~= manifest_name());
    }
    v
}

/// Persists a snapshot as it is restored: one file per accepted chunk, and
/// finally the manifest.
pub struct LooseWriter {
    pub dir: DirFiles,
}

impl View for LooseWriter {
    type V = Seq<FileModel>;

    open spec fn view(&self) -> Seq<FileModel> {
        self.dir@
    }
}

impl LooseWriter {
    /// Open a writer over a fresh, empty directory.
    pub fn new() -> (w: LooseWriter)
        ensures
            w@ =~= Seq::<FileModel>::empty(),
            dir_wf(w@),
    {
        LooseWriter { dir: DirFiles::empty() }
    }

    /// Persist a raw compressed chunk under the hex spelling of its content
    /// hash.  `io_fault` is the environment's verdict on the write: when it
    /// holds, the write fails with `Io` and nothing changes.
    pub fn write_chunk(&mut self, hash: &Hash256, chunk: &[u8], io_fault: bool) -> (r: Result<
        (),
        Error,
    >)
        requires
            dir_wf(old(self)@),
        ensures
            dir_wf(final(self)@),
            match r {
                Ok(()) => !io_fault && final(self)@ == dir_put(old(self)@, hex_of(hash@), chunk@),
                Err(e) => io_fault && e is Io && final(self)@ == old(self)@,
            },
    {
        if io_fault {
            return Err(Error::Io);
        }
        let name = hash.hex_name();
        let bytes = crate::wire::bytes_from_slice(chunk, 0, chunk.len());
        proof {
            assert(bytes@ =~= chunk@);
        }
        self.dir.put(name, bytes);
        Ok(())
    }

    /// Serialize the manifest to the `MANIFEST` file, completing the
    /// snapshot directory.  `io_fault` as in [`Self::write_chunk`].
    pub fn finish(&mut self, manifest: &ManifestData, io_fault: bool) -> (r: Result<(), Error>)
        requires
            dir_wf(old(self)@),
        ensures
            dir_wf(final(self)@),
            match r {
                Ok(()) => !io_fault && final(self)@ == dir_put(
                    old(self)@,
                    manifest_name(),
                    spec_encode_manifest(manifest@),
                ),
                Err(e) => io_fault && e is Io && final(self)@ == old(self)@,
            },
    {
        if io_fault {
            return Err(Error::Io);
        }
        let name = manifest_file_name();
        let bytes = encode_manifest(manifest);
        self.dir.put(name, bytes);
        Ok(())
    }
}

/// Serves a persisted snapshot directory: its manifest and its chunks.
pub struct LooseReader {
    pub dir: DirFiles,
    pub manifest: ManifestData,
}

/// A reader is an open directory whose `MANIFEST` file decodes to the
/// manifest the reader serves.
pub open spec fn reader_wf(r: LooseReader) -> bool {
    &&& dir_wf(r.dir@)
    &&& dir_get(r.dir@, manifest_name()) is Some
    &&& spec_decode_manifest(dir_get(r.dir@, manifest_name()).unwrap()) == Some(r.manifest@)
}

impl LooseReader {
    /// Open a reader over a snapshot directory.  Succeeds if and only if
    /// the directory holds a `MANIFEST` file that parses.
    pub fn open(dir: DirFiles) -> (r: Result<LooseReader, Error>)
        requires
            dir_wf(dir@),
        ensures
            match r {
                Ok(rd) => {
                    &&& reader_wf(rd)
                    &&& rd.dir@ == dir@
                    &&& Some(rd.manifest@) == spec_decode_manifest(
                        dir_get(dir@, manifest_name()).unwrap(),
                    )
                },
                Err(e) => {
                    &&& e is Io
                    &&& (dir_get(dir@, manifest_name()) is None
                        || spec_decode_manifest(dir_get(dir@, manifest_name()).unwrap()) is None)
                },
            },
    {
        let name = manifest_file_name();
        let bytes = match dir.get(name.as_slice()) {
            Some(b) => b,
            None => {
                return Err(Error::Io);
            },
        };
        let manifest = match decode_manifest(bytes.as_slice()) {
            Some(m) => m,
            None => {
                return Err(Error::Io);
            },
        };
        Ok(LooseReader { dir, manifest })
    }

    /// The manifest of the served snapshot.
    pub fn manifest(&self) -> (m: &ManifestData)
        ensures
            m == self.manifest,
    {
        &self.manifest
    }

    /// The raw compressed bytes of the chunk of this content hash, if the
    /// directory holds them.
    pub fn chunk(&self, hash: &Hash256) -> (r: Option<Vec<u8>>)
        requires
            dir_wf(self.dir@),
        ensures
            match r {
                Some(v) => dir_get(self.dir@, hex_of(hash@)) == Some(v@),
                None => !dir_has(self.dir@, hex_of(hash@)),
            },
    {
        let name = hash.hex_name();
        self.dir.get(name.as_slice())
    }
}

} // verus!
