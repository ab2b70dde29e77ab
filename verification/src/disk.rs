//! A model of the directory tree the service manages.
//!
//! The restoration lifecycle is a sequence of filesystem transactions:
//! chunk files written into `restoration/temp/`, the staging database
//! renamed over the client database (with a backup for rollback), and the
//! temp files published as `snapshot/current/`.  The service's contracts
//! are stated over this model, so the whole lifecycle is verified for
//! every outcome the environment can produce.

use vstd::prelude::*;
use crate::wire::bytes_from_slice;

verus! {

/// One file of a flat snapshot directory.
pub struct FileEntry {
    pub name: Vec<u8>,
    pub bytes: Vec<u8>,
}

/// The mathematical content of a file: its basename and its bytes.
pub struct FileModel {
    pub name: Seq<u8>,
    pub bytes: Seq<u8>,
}

impl View for FileEntry {
    type V = FileModel;

    open spec fn view(&self) -> FileModel {
        FileModel { name: self.name@, bytes: self.bytes@ }
    }
}

/// A flat directory of named files, such as `snapshot/current/` or
/// `restoration/temp/`.
pub struct DirFiles {
    pub files: Vec<FileEntry>,
}

impl View for DirFiles {
    type V = Seq<FileModel>;

    open spec fn view(&self) -> Seq<FileModel> {
        self.files@.map_values(|f: FileEntry| f@)
    }
}

/// Whether the directory holds a file of this basename.
pub open spec fn dir_has(fs: Seq<FileModel>, name: Seq<u8>) -> bool {
    exists|i: int| 0 <= i < fs.len() && fs[i].name == name
}

/// The bytes of the file of this basename, if one exists.
pub open spec fn dir_get(fs: Seq<FileModel>, name: Seq<u8>) -> Option<Seq<u8>> {
    if dir_has(fs, name) {
        Some(fs[choose|i: int| 0 <= i < fs.len() && fs[i].name == name].bytes)
    } else {
        None
    }
}

/// Basenames are unique: a directory holds at most one file per name.
pub open spec fn dir_wf(fs: Seq<FileModel>) -> bool {
    forall|i: int, j: int| 0 <= i < j < fs.len() ==> fs[i].name != fs[j].name
}

/// The directory after writing a file: an existing file of the same name is
/// replaced, otherwise the file is appended.
pub open spec fn dir_put(fs: Seq<FileModel>, name: Seq<u8>, bytes: Seq<u8>) -> Seq<FileModel> {
    if dir_has(fs, name) {
        fs.update(
            choose|i: int| 0 <= i < fs.len() && fs[i].name == name,
            FileModel { name, bytes },
        )
    } else {
        fs.push(FileModel { name, bytes })
    }
}

/// In a well-formed directory, every entry is the file its name denotes.
pub proof fn lemma_dir_get_at(fs: Seq<FileModel>, i: int)
    requires
        dir_wf(fs),
        0 <= i < fs.len(),
    ensures
        dir_has(fs, fs[i].name),
        dir_get(fs, fs[i].name) == Some(fs[i].bytes),
{
    let n = fs[i].name;
    assert(dir_has(fs, n));
    let j = choose|j: int| 0 <= j < fs.len() && fs[j].name == n;
    if i != j {
        assert(fs[i].name != fs[j].name);
    }
}

/// Writing a file preserves well-formedness and changes exactly the file
/// written.
pub proof fn lemma_dir_put(fs: Seq<FileModel>, name: Seq<u8>, bytes: Seq<u8>)
    requires
        dir_wf(fs),
    ensures
        dir_wf(dir_put(fs, name, bytes)),
        dir_get(dir_put(fs, name, bytes), name) == Some(bytes),
        forall|n: Seq<u8>| n != name
            ==> #[trigger] dir_get(dir_put(fs, name, bytes), n) == dir_get(fs, n),
        forall|n: Seq<u8>| #[trigger] dir_has(dir_put(fs, name, bytes), n)
            <==> (dir_has(fs, n) || n == name),
{
    let fs2 = dir_put(fs, name, bytes);
    if dir_has(fs, name) {
        let i = choose|i: int| 0 <= i < fs.len() && fs[i].name == name;
        assert(forall|k: int| 0 <= k < fs.len() && k != i ==> fs2[k] == fs[k]);
        assert(fs2[i].name == name);
        assert(dir_wf(fs2));
        lemma_dir_get_at(fs2, i);
        assert forall|n: Seq<u8>| n != name implies #[trigger] dir_get(fs2, n) == dir_get(
            fs,
            n,
        ) by {
            if dir_has(fs, n) {
                let k = choose|k: int| 0 <= k < fs.len() && fs[k].name == n;
                assert(k != i);
                lemma_dir_get_at(fs, k);
                lemma_dir_get_at(fs2, k);
            } else {
                assert(!dir_has(fs2, n));
            }
        }
        assert forall|n: Seq<u8>| #[trigger] dir_has(fs2, n) <==> (dir_has(fs, n) || n
            == name) by {
            if dir_has(fs2, n) {
                let k = choose|k: int| 0 <= k < fs2.len() && fs2[k].name == n;
                if k != i {
                    assert(fs[k].name == n);
                }
            }
            if dir_has(fs, n) {
                let k = choose|k: int| 0 <= k < fs.len() && fs[k].name == n;
                if k != i {
                    assert(fs2[k].name == n);
                } else {
                    assert(fs2[i].name == name);
                }
            }
        }
    } else {
        let i = fs.len() as int;
        assert(fs2[i].name == name);
        assert(forall|k: int| 0 <= k < fs.len() ==> fs2[k] == fs[k]);
        assert forall|k: int, l: int| 0 <= k < l < fs2.len() implies fs2[k].name
            != fs2[l].name by {
            if l < i {
                assert(fs[k].name != fs[l].name);
            } else {
                assert(fs2[l].name == name);
                if fs2[k].name == name {
                    assert(dir_has(fs, name));
                }
            }
        }
        lemma_dir_get_at(fs2, i);
        assert forall|n: Seq<u8>| n != name implies #[trigger] dir_get(fs2, n) == dir_get(
            fs,
            n,
        ) by {
            if dir_has(fs, n) {
                let k = choose|k: int| 0 <= k < fs.len() && fs[k].name == n;
                lemma_dir_get_at(fs, k);
                lemma_dir_get_at(fs2, k);
            } else {
                if dir_has(fs2, n) {
                    let k = choose|k: int| 0 <= k < fs2.len() && fs2[k].name == n;
                    assert(k == i);
                }
            }
        }
        assert forall|n: Seq<u8>| #[trigger] dir_has(fs2, n) <==> (dir_has(fs, n) || n
            == name) by {
            if dir_has(fs, n) {
                let k = choose|k: int| 0 <= k < fs.len() && fs[k].name == n;
                assert(fs2[k].name == n);
            }
            if dir_has(fs2, n) && n != name {
                let k = choose|k: int| 0 <= k < fs2.len() && fs2[k].name == n;
                assert(k != i);
                assert(fs[k].name == n);
            }
        }
    }
}

/// Byte-string equality.
pub fn bytes_eq(a: &[u8], b: &[u8]) -> (r: bool)
    ensures
        r == (a@ == b@),
{
    let alen = a.len();
    if alen != b.len() {
        proof {
            assert(a@ != b@);
        }
        return false;
    }
    let mut i: usize = 0;
    while i < alen
        invariant
            i <= alen,
            alen == a@.len(),
            alen == b@.len(),
            forall|j: int| 0 <= j < i ==> a@[j] == b@[j],
        decreases alen - i,
    {
        if a[i] != b[i] {
            return false;
        }
        i = i + 1;
    }
    proof {
        assert(a@ =~= b@);
    }
    true
}

impl DirFiles {
    /// An empty directory.
    pub fn empty() -> (d: DirFiles)
        ensures
            d@ =~= Seq::<FileModel>::empty(),
            dir_wf(d@),
    {
        DirFiles { files: Vec::new() }
    }

    /// Write a file: replace the file of the same basename if one exists,
    /// create it otherwise.
    pub fn put(&mut self, name: Vec<u8>, bytes: Vec<u8>)
        requires
            dir_wf(old(self)@),
        ensures
            final(self)@ == dir_put(old(self)@, name@, bytes@),
            dir_wf(final(self)@),
    {
        proof {
            lemma_dir_put(old(self)@, name@, bytes@);
        }
        let n = self.files.len();
        let mut i: usize = 0;
        while i < n
            invariant
                i <= n,
                n == self.files@.len(),
                self@ == old(self)@,
                dir_wf(self@),
                forall|j: int| 0 <= j < i ==> self@[j].name != name@,
            decreases n - i,
        {
            if bytes_eq(self.files[i].name.as_slice(), name.as_slice()) {
                proof {
                    assert(self@[i as int] == self.files@[i as int]@);
                    assert(self@[i as int].name == name@);
                    assert(dir_has(self@, name@));
                    let k = choose|k: int| 0 <= k < self@.len() && self@[k].name == name@;
                    if k != i {
                        assert(self@[k].name != self@[i as int].name);
                    }
                }
                self.files.set(i, FileEntry { name, bytes });
                proof {
                    assert(self@[i as int] == self.files@[i as int]@);
                    assert(self@ =~= dir_put(old(self)@, name@, bytes@));
                }
                return;
            }
            i = i + 1;
        }
        proof {
            assert(!dir_has(self@, name@));
        }
        self.files.push(FileEntry { name, bytes });
        proof {
            assert(self@[self@.len() - 1] == self.files@[self@.len() - 1]@);
            assert(self@ =~= dir_put(old(self)@, name@, bytes@));
        }
    }

    /// The bytes of the named file, if it exists.
    pub fn get(&self, name: &[u8]) -> (r: Option<Vec<u8>>)
        requires
            dir_wf(self@),
        ensures
            match r {
                Some(v) => dir_get(self@, name@) == Some(v@),
                None => !dir_has(self@, name@),
            },
    {
        let n = self.files.len();
        let mut i: usize = 0;
        while i < n
            invariant
                i <= n,
                n == self.files@.len(),
                dir_wf(self@),
                forall|j: int| 0 <= j < i ==> self@[j].name != name@,
                self@ == self.files@.map_values(|f: FileEntry| f@),
            decreases n - i,
        {
            if bytes_eq(self.files[i].name.as_slice(), name) {
                let b = &self.files[i].bytes;
                let out = bytes_from_slice(b.as_slice(), 0, b.len());
                proof {
                    lemma_dir_get_at(self@, i as int);
                    assert(out@ =~= self@[i as int].bytes);
                }
                return Some(out);
            }
            i = i + 1;
        }
        None
    }

    /// A deep copy: the same files, in the same order.  A reader opened
    /// over a directory serves the contents as of the moment it opened.
    pub fn duplicate(&self) -> (d: DirFiles)
        ensures
            d@ == self@,
    {
        let mut files: Vec<FileEntry> = Vec::new();
        let n = self.files.len();
        let mut i: usize = 0;
        while i < n
            invariant
                i <= n,
                n == self.files@.len(),
                files@.map_values(|f: FileEntry| f@) == self@.take(i as int),
                self@ == self.files@.map_values(|f: FileEntry| f@),
            decreases n - i,
        {
            let ghost pre = files@.map_values(|f: FileEntry| f@);
            let src = &self.files[i];
            let name = bytes_from_slice(src.name.as_slice(), 0, src.name.len());
            let bytes = bytes_from_slice(src.bytes.as_slice(), 0, src.bytes.len());
            proof {
                assert(name@ =~= self.files@[i as int].name@);
                assert(bytes@ =~= self.files@[i as int].bytes@);
            }
            files.push(FileEntry { name, bytes });
            proof {
                assert(files@.map_values(|f: FileEntry| f@) =~= pre.push(self@[i as int]));
                assert(pre.push(self@[i as int]) =~= self@.take(i + 1));
            }
            i = i + 1;
        }
        let d = DirFiles { files };
        proof {
            assert(self@.take(n as int) =~= self@);
        }
        d
    }

    /// The number of files in the directory.
    pub fn len(&self) -> (n: usize)
        ensures
            n == self@.len(),
    {
        self.files.len()
    }
}

/// The database directories and the snapshot directories of one chain, as
/// the service observes them.  `None` stands for an absent directory.
pub struct Disk {
    /// The live client database.
    pub client_db: Option<Vec<u8>>,
    /// `restoration/backup_db`: the previous client database during a swap.
    pub backup_db: Option<Vec<u8>>,
    /// `restoration/db`: the staging database of the current attempt.
    pub restoration_db: Option<Vec<u8>>,
    /// Whether the `restoration/` tree exists at all.
    pub restoration_dir: bool,
    /// `snapshot/current/`: the snapshot served to peers.
    pub current: Option<DirFiles>,
}

} // verus!
