//! The two rebuilders: account state and block history.
//!
//! The state rebuilder collects the account entries of every accepted state
//! chunk and computes the state root that authenticates them; it also
//! tracks which referenced contract code blobs were actually supplied.
//!
//! The block rebuilder collects runs of consecutive blocks, verifies each
//! block's seal against the consensus engine, and finally glues the runs -
//! fed in any order - into one continuous chain ending at the snapshot's
//! highest block.

use vstd::prelude::*;
use vstd::bytes::spec_u32_to_le_bytes;
use crate::hash::{Hash256, keccak_of, keccak256};
use crate::chunks::{StateEntry, EntryModel, CodeModel, BlockRecord, BlockModel,
    parse_state_entries, parse_state_payload, parse_block_run, parse_block_payload};
use crate::engine::Engine;
use crate::errors::Error;
use crate::manifest::hash_to_vec;
use crate::wire::{bytes_from_slice, push_u32};

verus! {

// ---------------------------------------------------------------------
// State rebuilder
// ---------------------------------------------------------------------

/// The account entries of one accepted state chunk.
pub struct FedChunk {
    pub hash: Hash256,
    pub entries: Vec<StateEntry>,
}

/// The mathematical content of one accepted state chunk.
pub struct FedChunkModel {
    pub hash: Seq<u8>,
    pub entries: Seq<EntryModel>,
}

impl View for FedChunk {
    type V = FedChunkModel;

    open spec fn view(&self) -> FedChunkModel {
        FedChunkModel { hash: self.hash@, entries: self.entries@.map_values(|e: StateEntry| e@) }
    }
}

/// Consumes decompressed state chunks and assembles the account state.
pub struct StateRebuilder {
    pub chunks: Vec<FedChunk>,
}

impl View for StateRebuilder {
    type V = Seq<FedChunkModel>;

    open spec fn view(&self) -> Seq<FedChunkModel> {
        self.chunks@.map_values(|c: FedChunk| c@)
    }
}

/// Whether a chunk of this content hash has been fed.
pub open spec fn chunk_fed(m: Seq<FedChunkModel>, h: Seq<u8>) -> bool {
    exists|i: int| 0 <= i < m.len() && m[i].hash == h
}

/// The entries of the fed chunk of this content hash.
pub open spec fn entries_of(m: Seq<FedChunkModel>, h: Seq<u8>) -> Seq<EntryModel> {
    m[choose|i: int| 0 <= i < m.len() && m[i].hash == h].entries
}

/// Each chunk was fed once, and every entry's data fits its length prefix.
pub open spec fn state_wf(m: Seq<FedChunkModel>) -> bool {
    &&& forall|i: int, j: int| 0 <= i < j < m.len() ==> m[i].hash != m[j].hash
    &&& forall|i: int, j: int| 0 <= i < m.len() && 0 <= j < m[i].entries.len()
        ==> (#[trigger] m[i].entries[j]).data.len() < 0x1_0000_0000
}

pub proof fn lemma_entries_of_at(m: Seq<FedChunkModel>, i: int)
    requires
        state_wf(m),
        0 <= i < m.len(),
    ensures
        chunk_fed(m, m[i].hash),
        entries_of(m, m[i].hash) == m[i].entries,
{
    assert(chunk_fed(m, m[i].hash));
    let j = choose|j: int| 0 <= j < m.len() && m[j].hash == m[i].hash;
    if i != j {
        assert(m[i].hash != m[j].hash);
    }
}

/// Every entry a parse yields carries data shorter than its 32-bit length
/// prefix allows.
pub proof fn lemma_parsed_entries_bounded(b: Seq<u8>)
    requires
        parse_state_entries(b) is Some,
    ensures
        forall|j: int| 0 <= j < parse_state_entries(b).unwrap().len()
            ==> (#[trigger] parse_state_entries(b).unwrap()[j]).data.len() < 0x1_0000_0000,
    decreases b.len(),
{
    if b.len() == 0 {
    } else {
        let dlen = vstd::bytes::spec_u32_from_le_bytes(b.subrange(32, 36)) as int;
        let ctag = b[36 + dlen];
        let clen = if b.len() >= 37 + dlen + 36 {
            vstd::bytes::spec_u32_from_le_bytes(b.subrange(37 + dlen + 32, 37 + dlen + 36)) as int
        } else {
            0
        };
        let consumed = if ctag == 0 {
            37 + dlen
        } else if ctag == 1 {
            37 + dlen + 32
        } else {
            37 + dlen + 36 + clen
        };
        lemma_parsed_entries_bounded(b.skip(consumed));
        let es = parse_state_entries(b).unwrap();
        let tail = parse_state_entries(b.skip(consumed)).unwrap();
        assert forall|j: int| 0 <= j < es.len() implies (#[trigger] es[j]).data.len()
            < 0x1_0000_0000 by {
            if j > 0 {
                assert(es[j] == tail[j - 1]);
            }
        }
    }
}

/// The canonical serialization of one account entry.
pub open spec fn canon_entry(e: EntryModel) -> Seq<u8> {
    e.key + spec_u32_to_le_bytes(e.data.len() as u32) + e.data
}

/// The canonical serialization of a run of account entries.
pub open spec fn canon_entries(es: Seq<EntryModel>) -> Seq<u8>
    decreases es.len(),
{
    if es.len() == 0 {
        Seq::empty()
    } else {
        canon_entry(es[0]) + canon_entries(es.skip(1))
    }
}

proof fn lemma_canon_entries_push(es: Seq<EntryModel>, e: EntryModel)
    ensures
        canon_entries(es.push(e)) == canon_entries(es) + canon_entry(e),
    decreases es.len(),
{
    if es.len() == 0 {
        assert(es.push(e)[0] == e);
        assert(es.push(e).skip(1) =~= Seq::<EntryModel>::empty());
        assert(canon_entries(es.push(e)) == canon_entry(e) + canon_entries(
            Seq::<EntryModel>::empty(),
        ));
        assert(canon_entries(Seq::<EntryModel>::empty()) == Seq::<u8>::empty());
        assert(canon_entries(es) == Seq::<u8>::empty());
        assert(canon_entries(es.push(e)) =~= canon_entries(es) + canon_entry(e));
    } else {
        assert(es.push(e)[0] == es[0]);
        assert(es.push(e).skip(1) =~= es.skip(1).push(e));
        lemma_canon_entries_push(es.skip(1), e);
        assert(canon_entries(es.push(e)) == canon_entry(es[0]) + (canon_entries(es.skip(1))
            + canon_entry(e)));
        assert(canon_entries(es) == canon_entry(es[0]) + canon_entries(es.skip(1)));
        assert(canon_entries(es.push(e)) =~= canon_entries(es) + canon_entry(e));
    }
}

/// The canonical serialization of the whole account state: the entries of
/// every state chunk, in manifest order.
pub open spec fn canon_state(hashes: Seq<Seq<u8>>, m: Seq<FedChunkModel>) -> Seq<u8>
    decreases hashes.len(),
{
    if hashes.len() == 0 {
        Seq::empty()
    } else {
        canon_entries(entries_of(m, hashes[0])) + canon_state(hashes.skip(1), m)
    }
}

proof fn lemma_canon_state_push(hashes: Seq<Seq<u8>>, m: Seq<FedChunkModel>, h: Seq<u8>)
    ensures
        canon_state(hashes.push(h), m) == canon_state(hashes, m) + canon_entries(entries_of(m, h)),
    decreases hashes.len(),
{
    if hashes.len() == 0 {
        assert(hashes.push(h)[0] == h);
        assert(hashes.push(h).skip(1) =~= Seq::<Seq<u8>>::empty());
        assert(canon_state(hashes.push(h), m) == canon_entries(entries_of(m, h)) + canon_state(
            Seq::<Seq<u8>>::empty(),
            m,
        ));
        assert(canon_state(Seq::<Seq<u8>>::empty(), m) == Seq::<u8>::empty());
        assert(canon_state(hashes, m) == Seq::<u8>::empty());
        assert(canon_state(hashes.push(h), m) =~= canon_state(hashes, m) + canon_entries(
            entries_of(m, h),
        ));
    } else {
        assert(hashes.push(h)[0] == hashes[0]);
        assert(hashes.push(h).skip(1) =~= hashes.skip(1).push(h));
        lemma_canon_state_push(hashes.skip(1), m, h);
        assert(canon_state(hashes.push(h), m) == canon_entries(entries_of(m, hashes[0]))
            + (canon_state(hashes.skip(1), m) + canon_entries(entries_of(m, h))));
        assert(canon_state(hashes, m) == canon_entries(entries_of(m, hashes[0])) + canon_state(
            hashes.skip(1),
            m,
        ));
        assert(canon_state(hashes.push(h), m) =~= canon_state(hashes, m) + canon_entries(
            entries_of(m, h),
        ));
    }
}

/// The state root: the digest of the canonical serialization of the whole
/// account state, taken in manifest order.
pub open spec fn state_root_of(hashes: Seq<Seq<u8>>, m: Seq<FedChunkModel>) -> Seq<u8> {
    keccak_of(canon_state(hashes, m))
}

/// A referenced code hash is supplied if some entry carries the blob inline.
pub open spec fn code_supplied(m: Seq<FedChunkModel>, h: Seq<u8>) -> bool {
    exists|i: int, j: int| 0 <= i < m.len() && 0 <= j < m[i].entries.len()
        && ((#[trigger] m[i].entries[j]).code matches CodeModel::Inline(hh, _) && hh == h)
}

/// Whether some entry references a code hash that no entry supplies.
pub open spec fn state_missing_code(m: Seq<FedChunkModel>) -> bool {
    exists|i: int, j: int| 0 <= i < m.len() && 0 <= j < m[i].entries.len()
        && ((#[trigger] m[i].entries[j]).code matches CodeModel::Linked(h) && !code_supplied(m, h))
}

impl StateRebuilder {
    /// A fresh rebuilder over an empty staging database.
    pub fn new() -> (r: StateRebuilder)
        ensures
            r@ =~= Seq::<FedChunkModel>::empty(),
            state_wf(r@),
    {
        StateRebuilder { chunks: Vec::new() }
    }

    /// Consume the decompressed payload of the state chunk of hash `hash`:
    /// parse its account entries and record them under the chunk's hash.
    /// Fails with `CorruptChunk` if and only if the payload is malformed,
    /// leaving the rebuilder unchanged.
    pub fn feed(&mut self, hash: &Hash256, payload: &[u8]) -> (r: Result<(), Error>)
        requires
            state_wf(old(self)@),
            !chunk_fed(old(self)@, hash@),
        ensures
            state_wf(final(self)@),
            match r {
                Ok(()) => {
                    &&& parse_state_entries(payload@) is Some
                    &&& final(self)@ == old(self)@.push(FedChunkModel {
                        hash: hash@,
                        entries: parse_state_entries(payload@).unwrap(),
                    })
                },
                Err(e) => {
                    &&& e is CorruptChunk
                    &&& parse_state_entries(payload@) is None
                    &&& final(self)@ == old(self)@
                },
            },
    {
        let mut entries: Vec<StateEntry> = Vec::new();
        let ok = parse_state_payload(payload, 0, &mut entries);
        proof {
            assert(payload@.skip(0) =~= payload@);
        }
        if !ok {
            return Err(Error::CorruptChunk);
        }
        let fed = FedChunk { hash: *hash, entries };
        let ghost fedv = fed@;
        proof {
            assert(fedv.entries =~= parse_state_entries(payload@).unwrap());
        }
        self.chunks.push(fed);
        proof {
            assert(self@ =~= old(self)@.push(fedv));
            lemma_parsed_entries_bounded(payload@);
            assert forall|i: int, j: int| 0 <= i < self@.len() && 0 <= j
                < self@[i].entries.len() implies (#[trigger] self@[i].entries[j]).data.len()
                < 0x1_0000_0000 by {
                if i < self@.len() - 1 {
                    assert(self@[i] == old(self)@[i]);
                }
            }
        }
        Ok(())
    }

    /// Whether some fed entry supplies the code blob of hash `h` inline.
    fn has_inline(&self, h: &Hash256) -> (r: bool)
        ensures
            r == code_supplied(self@, h@),
    {
        let n = self.chunks.len();
        let mut i: usize = 0;
        while i < n
            invariant
                i <= n,
                n == self.chunks@.len(),
                self@ == self.chunks@.map_values(|c: FedChunk| c@),
                forall|a: int, b: int| 0 <= a < i && 0 <= b < self@[a].entries.len()
                    ==> !((#[trigger] self@[a].entries[b]).code matches CodeModel::Inline(hh, _)
                        && hh == h@),
            decreases n - i,
        {
            let en = self.chunks[i].entries.len();
            let mut j: usize = 0;
            while j < en
                invariant
                    i < n,
                    j <= en,
                    n == self.chunks@.len(),
                    en == self.chunks@[i as int].entries@.len(),
                    self@ == self.chunks@.map_values(|c: FedChunk| c@),
                    forall|b: int| 0 <= b < j
                        ==> !((#[trigger] self@[i as int].entries[b]).code
                            matches CodeModel::Inline(hh, _) && hh == h@),
                decreases en - j,
            {
                if let CodeInfoRef::Inline = code_kind(&self.chunks[i].entries[j].code) {
                    let hh = code_hash_of(&self.chunks[i].entries[j].code);
                    if hh == *h {
                        proof {
                            assert(self@[i as int].entries[j as int]
                                == self.chunks@[i as int].entries@[j as int]@);
                        }
                        return true;
                    }
                }
                proof {
                    assert(self@[i as int].entries[j as int]
                        == self.chunks@[i as int].entries@[j as int]@);
                }
                j = j + 1;
            }
            i = i + 1;
        }
        false
    }

    /// Fail with `MissingCode` if and only if some entry references a code
    /// blob that no entry supplied.
    pub fn check_missing(&self) -> (r: Result<(), Error>)
        ensures
            r is Ok <==> !state_missing_code(self@),
            r is Err ==> r.unwrap_err() is MissingCode,
    {
        let n = self.chunks.len();
        let mut i: usize = 0;
        while i < n
            invariant
                i <= n,
                n == self.chunks@.len(),
                self@ == self.chunks@.map_values(|c: FedChunk| c@),
                forall|a: int, b: int| 0 <= a < i && 0 <= b < self@[a].entries.len()
                    ==> !((#[trigger] self@[a].entries[b]).code matches CodeModel::Linked(h)
                        && !code_supplied(self@, h)),
            decreases n - i,
        {
            let en = self.chunks[i].entries.len();
            let mut j: usize = 0;
            while j < en
                invariant
                    i < n,
                    j <= en,
                    n == self.chunks@.len(),
                    en == self.chunks@[i as int].entries@.len(),
                    self@ == self.chunks@.map_values(|c: FedChunk| c@),
                    forall|b: int| 0 <= b < j
                        ==> !((#[trigger] self@[i as int].entries[b]).code
                            matches CodeModel::Linked(h) && !code_supplied(self@, h)),
                decreases en - j,
            {
                if let CodeInfoRef::Linked = code_kind(&self.chunks[i].entries[j].code) {
                    let hh = code_hash_of(&self.chunks[i].entries[j].code);
                    if !self.has_inline(&hh) {
                        proof {
                            assert(self@[i as int].entries[j as int]
                                == self.chunks@[i as int].entries@[j as int]@);
                        }
                        return Err(Error::MissingCode);
                    }
                }
                proof {
                    assert(self@[i as int].entries[j as int]
                        == self.chunks@[i as int].entries@[j as int]@);
                }
                j = j + 1;
            }
            i = i + 1;
        }
        Ok(())
    }

    /// The state root over the chunks of `order`, which must all have been
    /// fed: the digest of the canonical serialization in that order.
    pub fn state_root(&self, order: &Vec<Hash256>) -> (root: Hash256)
        requires
            state_wf(self@),
            forall|i: int| 0 <= i < order@.len() ==> chunk_fed(self@, (#[trigger] order@[i])@),
        ensures
            root@ == state_root_of(order@.map_values(|h: Hash256| h@), self@),
    {
        let canon = self.canonical(order);
        keccak256(canon.as_slice())
    }

    /// The canonical serialization of the whole account state, in the
    /// order of `order`, whose chunks must all have been fed.
    pub fn canonical(&self, order: &Vec<Hash256>) -> (canon: Vec<u8>)
        requires
            state_wf(self@),
            forall|i: int| 0 <= i < order@.len() ==> chunk_fed(self@, (#[trigger] order@[i])@),
        ensures
            canon@ == canon_state(order@.map_values(|h: Hash256| h@), self@),
    {
        let ghost hv = order@.map_values(|h: Hash256| h@);
        let mut canon: Vec<u8> = Vec::new();
        let n = order.len();
        let mut i: usize = 0;
        while i < n
            invariant
                i <= n,
                n == order@.len(),
                hv == order@.map_values(|h: Hash256| h@),
                state_wf(self@),
                forall|k: int| 0 <= k < n ==> chunk_fed(self@, (#[trigger] order@[k])@),
                canon@ == canon_state(hv.take(i as int), self@),
            decreases n - i,
        {
            let ci = self.find_chunk(&order[i]);
            self.append_canon_entries(ci, &mut canon);
            proof {
                lemma_entries_of_at(self@, ci as int);
                lemma_canon_state_push(hv.take(i as int), self@, hv[i as int]);
                assert(hv.take(i as int).push(hv[i as int]) =~= hv.take(i + 1));
            }
            i = i + 1;
        }
        proof {
            assert(hv.take(hv.len() as int) =~= hv);
        }
        canon
    }

    /// The index of the fed chunk of this hash.
    fn find_chunk(&self, h: &Hash256) -> (idx: usize)
        requires
            state_wf(self@),
            chunk_fed(self@, h@),
        ensures
            idx < self@.len(),
            self@[idx as int].hash == h@,
    {
        let n = self.chunks.len();
        let mut i: usize = 0;
        while i < n
            invariant
                i <= n,
                n == self.chunks@.len(),
                self@ == self.chunks@.map_values(|c: FedChunk| c@),
                chunk_fed(self@, h@),
                forall|j: int| 0 <= j < i ==> self@[j].hash != h@,
            decreases n - i,
        {
            if self.chunks[i].hash == *h {
                return i;
            }
            i = i + 1;
        }
        proof {
            assert(!chunk_fed(self@, h@));
        }
        unreached()
    }

    /// Append the canonical serialization of chunk `ci`'s entries.
    fn append_canon_entries(&self, ci: usize, canon: &mut Vec<u8>)
        requires
            state_wf(self@),
            ci < self@.len(),
        ensures
            final(canon)@ == old(canon)@ + canon_entries(self@[ci as int].entries),
    {
        let ghost es = self@[ci as int].entries;
        let en = self.chunks[ci].entries.len();
        let mut j: usize = 0;
        while j < en
            invariant
                ci < self.chunks@.len(),
                j <= en,
                en == self.chunks@[ci as int].entries@.len(),
                self@ == self.chunks@.map_values(|c: FedChunk| c@),
                es == self@[ci as int].entries,
                state_wf(self@),
                canon@ == old(canon)@ + canon_entries(es.take(j as int)),
            decreases en - j,
        {
            let e = &self.chunks[ci].entries[j];
            proof {
                assert(es[j as int] == self.chunks@[ci as int].entries@[j as int]@);
            }
            let mut kb = hash_to_vec(&e.key);
            canon.append(&mut kb);
            push_u32(canon, e.data.len() as u32);
            let mut db = bytes_from_slice(e.data.as_slice(), 0, e.data.len());
            canon.append(&mut db);
            proof {
                lemma_canon_entries_push(es.take(j as int), es[j as int]);
                assert(es.take(j as int).push(es[j as int]) =~= es.take(j + 1));
                assert(canon@ =~= old(canon)@ + canon_entries(es.take(j + 1)));
            }
            j = j + 1;
        }
        proof {
            assert(es.take(es.len() as int) =~= es);
        }
    }
}

/// The kind of an account's code field.
enum CodeInfoRef {
    NoCode,
    Linked,
    Inline,
}

/// The kind of a code field, without its contents.
fn code_kind(c: &crate::chunks::CodeInfo) -> (r: CodeInfoRef)
    ensures
        (r is NoCode <==> c@ is NoCode),
        (r is Linked <==> c@ is Linked),
        (r is Inline <==> c@ is Inline),
{
    match c {
        crate::chunks::CodeInfo::NoCode => CodeInfoRef::NoCode,
        crate::chunks::CodeInfo::Linked(_) => CodeInfoRef::Linked,
        crate::chunks::CodeInfo::Inline(_, _) => CodeInfoRef::Inline,
    }
}

/// The hash a code field names.
fn code_hash_of(c: &crate::chunks::CodeInfo) -> (h: Hash256)
    requires
        c@ is Linked || c@ is Inline,
    ensures
        (c@ matches CodeModel::Linked(hh) ==> h@ == hh),
        (c@ matches CodeModel::Inline(hh, _) ==> h@ == hh),
{
    match c {
        crate::chunks::CodeInfo::NoCode => unreached(),
        crate::chunks::CodeInfo::Linked(h) => *h,
        crate::chunks::CodeInfo::Inline(h, _) => *h,
    }
}


// ---------------------------------------------------------------------
// Block rebuilder
// ---------------------------------------------------------------------

/// One fed run of consecutive blocks.
pub struct BlockRun {
    pub first: u64,
    pub blocks: Vec<BlockRecord>,
}

/// The mathematical content of one run.
pub struct RunModel {
    pub first: u64,
    pub blocks: Seq<BlockModel>,
}

impl View for BlockRun {
    type V = RunModel;

    open spec fn view(&self) -> RunModel {
        RunModel { first: self.first, blocks: self.blocks@.map_values(|b: BlockRecord| b@) }
    }
}

/// Blocks of a run link hash to parent hash, back to front.
pub open spec fn run_linked(bs: Seq<BlockModel>) -> bool {
    forall|i: int| 0 < i < bs.len() ==> (#[trigger] bs[i]).parent == bs[i - 1].hash
}

/// Every block's seal passes the engine.
pub open spec fn run_sealed<E: Engine>(e: E, bs: Seq<BlockModel>) -> bool {
    forall|i: int| 0 <= i < bs.len() ==> e.seal_ok((#[trigger] bs[i]).body)
}

/// Runs ordered by first block number, none of them empty.
pub open spec fn blocks_wf(rs: Seq<RunModel>) -> bool {
    &&& forall|i: int, j: int| 0 <= i < j < rs.len()
        ==> (#[trigger] rs[i]).first <= (#[trigger] rs[j]).first
    &&& forall|i: int| 0 <= i < rs.len() ==> (#[trigger] rs[i]).blocks.len() > 0
}

/// Insert a run in front of the first run that does not precede it.
pub open spec fn runs_insert(rs: Seq<RunModel>, r: RunModel) -> Seq<RunModel>
    decreases rs.len(),
{
    if rs.len() == 0 {
        seq![r]
    } else if r.first <= rs[0].first {
        seq![r] + rs
    } else {
        seq![rs[0]] + runs_insert(rs.skip(1), r)
    }
}

proof fn lemma_runs_insert_at(rs: Seq<RunModel>, r: RunModel, idx: int)
    requires
        blocks_wf(rs),
        r.blocks.len() > 0,
        0 <= idx <= rs.len(),
        forall|j: int| 0 <= j < idx ==> (#[trigger] rs[j]).first < r.first,
        idx < rs.len() ==> rs[idx].first >= r.first,
    ensures
        runs_insert(rs, r) == rs.insert(idx, r),
        blocks_wf(rs.insert(idx, r)),
    decreases idx,
{
    let out = rs.insert(idx, r);
    assert forall|i: int, j: int| 0 <= i < j < out.len() implies (#[trigger] out[i]).first
        <= (#[trigger] out[j]).first by {
        if i < idx && j < idx {
            assert(out[i] == rs[i] && out[j] == rs[j]);
        } else if i < idx && j == idx {
            assert(out[i] == rs[i] && out[j] == r);
        } else if i < idx && j > idx {
            assert(out[i] == rs[i] && out[j] == rs[j - 1]);
            if j - 1 == idx {
                assert(rs[j - 1].first >= r.first);
            }
        } else if i == idx && j > idx {
            assert(out[i] == r && out[j] == rs[j - 1]);
            assert(rs[idx].first <= rs[j - 1].first);
        } else {
            assert(out[i] == rs[i - 1] && out[j] == rs[j - 1]);
        }
    }
    assert forall|i: int| 0 <= i < out.len() implies (#[trigger] out[i]).blocks.len() > 0 by {
        if i < idx {
            assert(out[i] == rs[i]);
        } else if i > idx {
            assert(out[i] == rs[i - 1]);
        }
    }
    if idx == 0 {
        if rs.len() == 0 {
            assert(runs_insert(rs, r) =~= rs.insert(0, r));
        } else {
            assert(r.first <= rs[0].first);
            assert(runs_insert(rs, r) == seq![r] + rs);
            assert(seq![r] + rs =~= rs.insert(0, r));
        }
    } else {
        assert(rs[0].first < r.first);
        let tail = rs.skip(1);
        assert(forall|i: int, j: int| 0 <= i < j < tail.len()
            ==> (#[trigger] tail[i]).first <= (#[trigger] tail[j]).first);
        assert(forall|i: int| 0 <= i < tail.len() ==> (#[trigger] tail[i]).blocks.len() > 0);
        assert(forall|j: int| 0 <= j < idx - 1 ==> (#[trigger] tail[j]).first < r.first);
        lemma_runs_insert_at(tail, r, idx - 1);
        assert(runs_insert(rs, r) == seq![rs[0]] + tail.insert(idx - 1, r));
        assert(seq![rs[0]] + tail.insert(idx - 1, r) =~= rs.insert(idx, r));
    }
}

/// Adjacency of two neighbouring runs of the chain: contiguous block
/// numbers, and the later run's first parent is the earlier run's last
/// block hash.
pub open spec fn runs_adjacent(a: RunModel, b: RunModel) -> bool {
    &&& b.first == a.first + a.blocks.len()
    &&& b.blocks[0].parent == a.blocks.last().hash
}

/// Sorted runs form one continuous chain.
pub open spec fn runs_glued(rs: Seq<RunModel>) -> bool {
    forall|i: int| 0 < i < rs.len() ==> runs_adjacent(#[trigger] rs[i - 1], rs[i])
}

/// The glued chain ends exactly at the snapshot's highest block.
pub open spec fn runs_end_at(rs: Seq<RunModel>, target: u64) -> bool {
    rs.len() > 0 ==> rs.last().first + rs.last().blocks.len() - 1 == target
}

/// Consumes decompressed block chunks, verifying each block's seal, and
/// glues the runs into a continuous chain.
pub struct BlockRebuilder {
    /// The fed runs, ordered by first block number.
    pub runs: Vec<BlockRun>,
    /// The highest block of the snapshot.
    pub target: u64,
    /// The genesis block of the chain, seeding the staging chain.
    pub genesis: Vec<u8>,
}

impl View for BlockRebuilder {
    type V = Seq<RunModel>;

    open spec fn view(&self) -> Seq<RunModel> {
        self.runs@.map_values(|r: BlockRun| r@)
    }
}

impl BlockRebuilder {
    /// A fresh rebuilder bound to a staging chain seeded with `genesis`,
    /// aiming at highest block `target`.
    pub fn new(genesis: Vec<u8>, target: u64) -> (r: BlockRebuilder)
        ensures
            r@ =~= Seq::<RunModel>::empty(),
            r.target == target,
            blocks_wf(r@),
    {
        BlockRebuilder { runs: Vec::new(), target, genesis }
    }

    /// Where a run whose first block number is `first` is filed.
    fn insert_pos(&self, first: u64) -> (idx: usize)
        ensures
            idx <= self@.len(),
            forall|j: int| 0 <= j < idx ==> (#[trigger] self@[j]).first < first,
            idx < self@.len() ==> self@[idx as int].first >= first,
    {
        let m = self.runs.len();
        let mut idx: usize = 0;
        while idx < m
            invariant
                idx <= m,
                m == self.runs@.len(),
                self@ == self.runs@.map_values(|r: BlockRun| r@),
                forall|j: int| 0 <= j < idx ==> (#[trigger] self@[j]).first < first,
            decreases m - idx,
        {
            if self.runs[idx].first >= first {
                return idx;
            }
            proof {
                assert(self@[idx as int].first < first);
            }
            idx = idx + 1;
        }
        idx
    }

    /// Consume the decompressed payload of a block chunk: parse the run,
    /// verify every block's seal with the engine, and file the run by its
    /// first block number.  Fails with `CorruptChunk` on a malformed or
    /// unlinked run and with `InvalidSeal` on a rejected seal, leaving the
    /// rebuilder unchanged.
    pub fn feed<E: Engine>(&mut self, payload: &[u8], engine: &E) -> (r: Result<(), Error>)
        requires
            blocks_wf(old(self)@),
        ensures
            blocks_wf(final(self)@),
            final(self).target == old(self).target,
            match r {
                Ok(()) => {
                    &&& parse_block_run(payload@) is Some
                    &&& {
                        let (first, bs) = parse_block_run(payload@).unwrap();
                        &&& first + bs.len() - 1 <= u64::MAX
                        &&& run_linked(bs)
                        &&& run_sealed(*engine, bs)
                        &&& final(self)@ == runs_insert(old(self)@, RunModel { first, blocks: bs })
                    }
                },
                Err(e) => {
                    &&& final(self)@ == old(self)@
                    &&& match e {
                        Error::CorruptChunk => parse_block_run(payload@) is None
                            || {
                                let (first, bs) = parse_block_run(payload@).unwrap();
                                first + bs.len() - 1 > u64::MAX || !run_linked(bs)
                            },
                        Error::InvalidSeal => {
                            let (first, bs) = parse_block_run(payload@).unwrap();
                            &&& parse_block_run(payload@) is Some
                            &&& first + bs.len() - 1 <= u64::MAX
                            &&& run_linked(bs)
                            &&& !run_sealed(*engine, bs)
                        },
                        _ => false,
                    }
                },
            },
    {
        let parsed = parse_block_payload(payload);
        let (first, blocks) = match parsed {
            Some(p) => p,
            None => {
                return Err(Error::CorruptChunk);
            },
        };
        let ghost bs = parse_block_run(payload@).unwrap().1;
        let n = blocks.len();
        proof {
            assert(bs.len() == blocks@.len());
        }
        if n == 0 || (n - 1) as u64 > u64::MAX - first {
            return Err(Error::CorruptChunk);
        }
        let mut i: usize = 1;
        while i < n
            invariant
                1 <= i,
                n == blocks@.len(),
                parse_block_run(payload@) is Some,
                first == parse_block_run(payload@).unwrap().0,
                bs == parse_block_run(payload@).unwrap().1,
                bs == blocks@.map_values(|x: BlockRecord| x@),
                n >= 1,
                first + n - 1 <= u64::MAX,
                forall|j: int| 0 < j < i ==> (#[trigger] bs[j]).parent == bs[j - 1].hash,
                self@ == old(self)@,
                blocks_wf(self@),
            decreases n - i,
        {
            if !(blocks[i].parent == blocks[i - 1].hash) {
                proof {
                    assert(bs[i as int].parent != bs[i as int - 1].hash);
                }
                return Err(Error::CorruptChunk);
            }
            i = i + 1;
        }
        let mut k: usize = 0;
        while k < n
            invariant
                k <= n,
                n == blocks@.len(),
                parse_block_run(payload@) is Some,
                first == parse_block_run(payload@).unwrap().0,
                bs == parse_block_run(payload@).unwrap().1,
                bs == blocks@.map_values(|x: BlockRecord| x@),
                n >= 1,
                first + n - 1 <= u64::MAX,
                run_linked(bs),
                forall|j: int| 0 <= j < k ==> engine.seal_ok((#[trigger] bs[j]).body),
                self@ == old(self)@,
                blocks_wf(self@),
            decreases n - k,
        {
            if !engine.verify_block_seal(&blocks[k].body) {
                proof {
                    assert(!engine.seal_ok(bs[k as int].body));
                }
                return Err(Error::InvalidSeal);
            }
            k = k + 1;
        }
        let idx = self.insert_pos(first);
        let run = BlockRun { first, blocks };
        let ghost runv = run@;
        proof {
            lemma_runs_insert_at(old(self)@, runv, idx as int);
        }
        self.runs.insert(idx, run);
        proof {
            assert(self@ =~= old(self)@.insert(idx as int, runv));
        }
        Ok(())
    }

    /// Check that the fed runs, in order, form one continuous chain ending
    /// at the snapshot's highest block.  Fails with `Discontinuity` if and
    /// only if a gap or a parent-hash mismatch remains.
    pub fn glue_chunks(&self) -> (r: Result<(), Error>)
        requires
            blocks_wf(self@),
        ensures
            r is Ok <==> (runs_glued(self@) && runs_end_at(self@, self.target)),
            r is Err ==> r.unwrap_err() is Discontinuity,
    {
        let n = self.runs.len();
        if n == 0 {
            return Ok(());
        }
        let mut i: usize = 1;
        while i < n
            invariant
                1 <= i <= n,
                n == self.runs@.len(),
                blocks_wf(self@),
                self@ == self.runs@.map_values(|r: BlockRun| r@),
                forall|j: int| 0 < j < i ==> runs_adjacent(#[trigger] self@[j - 1], self@[j]),
            decreases n - i,
        {
            let prev = &self.runs[i - 1];
            let cur = &self.runs[i];
            let pn = prev.blocks.len();
            proof {
                assert(self@[i as int - 1] == self.runs@[i as int - 1]@);
                assert(self@[i as int] == self.runs@[i as int]@);
                assert(self@[i as int - 1].blocks.len() > 0);
                assert(self@[i as int].blocks.len() > 0);
            }
            if cur.first - prev.first != pn as u64 {
                proof {
                    assert(!runs_adjacent(self@[i as int - 1], self@[i as int]));
                    assert(!runs_glued(self@));
                }
                return Err(Error::Discontinuity);
            }
            if !(cur.blocks[0].parent == prev.blocks[pn - 1].hash) {
                proof {
                    assert(self@[i as int].blocks[0]
                        == self.runs@[i as int].blocks@[0]@);
                    assert(self@[i as int - 1].blocks.last()
                        == self.runs@[i as int - 1].blocks@[pn - 1]@);
                    assert(!runs_adjacent(self@[i as int - 1], self@[i as int]));
                    assert(!runs_glued(self@));
                }
                return Err(Error::Discontinuity);
            }
            proof {
                assert(self@[i as int].blocks[0] == self.runs@[i as int].blocks@[0]@);
                assert(self@[i as int - 1].blocks.last()
                    == self.runs@[i as int - 1].blocks@[pn - 1]@);
                assert(runs_adjacent(self@[i as int - 1], self@[i as int]));
            }
            i = i + 1;
        }
        let last = &self.runs[n - 1];
        let ln = last.blocks.len();
        proof {
            assert(self@[n as int - 1] == self.runs@[n as int - 1]@);
            assert(self@.last().blocks.len() == ln);
            assert(ln > 0);
        }
        if self.target < last.first || self.target - last.first != (ln - 1) as u64 {
            proof {
                assert(self@.last().first + self@.last().blocks.len() - 1 != self.target);
            }
            return Err(Error::Discontinuity);
        }
        proof {
            assert(self@.last().first + self@.last().blocks.len() - 1 == self.target);
        }
        Ok(())
    }
}

} // verus!
