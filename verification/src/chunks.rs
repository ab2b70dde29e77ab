//! The decompressed payload formats of state and block chunks.
//!
//! A state chunk is a run of account entries: a 32-byte account key, the
//! account's data, and the account's contract code - none, a reference to a
//! code hash expected from another entry, or an inline blob stored under
//! its hash.
//!
//! A block chunk is a run of consecutive blocks: the first block number,
//! the count, and for each block its hash, its parent hash and its body.
//! Runs may arrive in any order; the block rebuilder glues them.

use vstd::prelude::*;
use vstd::bytes::{spec_u32_from_le_bytes, spec_u64_from_le_bytes};
use crate::hash::Hash256;
use crate::wire::{hash_from_slice, bytes_from_slice, read_u32, read_u64};

verus! {

/// The contract code of one account entry.
pub enum CodeInfo {
    /// The account has no code.
    NoCode,
    /// The code is expected under this hash from some other entry.
    Linked(Hash256),
    /// The code is supplied inline, stored under this hash.
    Inline(Hash256, Vec<u8>),
}

/// One account entry of a state chunk.
pub struct StateEntry {
    pub key: Hash256,
    pub data: Vec<u8>,
    pub code: CodeInfo,
}

/// The mathematical content of an account's code.
pub enum CodeModel {
    NoCode,
    Linked(Seq<u8>),
    Inline(Seq<u8>, Seq<u8>),
}

/// The mathematical content of an account entry.
pub struct EntryModel {
    pub key: Seq<u8>,
    pub data: Seq<u8>,
    pub code: CodeModel,
}

impl View for CodeInfo {
    type V = CodeModel;

    open spec fn view(&self) -> CodeModel {
        match self {
            CodeInfo::NoCode => CodeModel::NoCode,
            CodeInfo::Linked(h) => CodeModel::Linked(h@),
            CodeInfo::Inline(h, c) => CodeModel::Inline(h@, c@),
        }
    }
}

impl View for StateEntry {
    type V = EntryModel;

    open spec fn view(&self) -> EntryModel {
        EntryModel { key: self.key@, data: self.data@, code: self.code@ }
    }
}

/// Parse a state chunk payload: a run of account entries, or nothing if
/// and only if the payload is malformed.
pub open spec fn parse_state_entries(b: Seq<u8>) -> Option<Seq<EntryModel>>
    decreases b.len(),
{
    if b.len() == 0 {
        Some(Seq::empty())
    } else if b.len() < 37 {
        None
    } else {
        let key = b.subrange(0, 32);
        let dlen = spec_u32_from_le_bytes(b.subrange(32, 36)) as int;
        if b.len() < 37 + dlen {
            None
        } else {
            let data = b.subrange(36, 36 + dlen);
            let ctag = b[36 + dlen];
            if ctag == 0 {
                let e = EntryModel { key, data, code: CodeModel::NoCode };
                match parse_state_entries(b.skip(37 + dlen)) {
                    Some(es) => Some(seq![e] + es),
                    None => None,
                }
            } else if ctag == 1 {
                if b.len() < 37 + dlen + 32 {
                    None
                } else {
                    let h = b.subrange(37 + dlen, 37 + dlen + 32);
                    let e = EntryModel { key, data, code: CodeModel::Linked(h) };
                    match parse_state_entries(b.skip(37 + dlen + 32)) {
                        Some(es) => Some(seq![e] + es),
                        None => None,
                    }
                }
            } else if ctag == 2 {
                if b.len() < 37 + dlen + 36 {
                    None
                } else {
                    let h = b.subrange(37 + dlen, 37 + dlen + 32);
                    let clen = spec_u32_from_le_bytes(
                        b.subrange(37 + dlen + 32, 37 + dlen + 36),
                    ) as int;
                    if b.len() < 37 + dlen + 36 + clen {
                        None
                    } else {
                        let c = b.subrange(37 + dlen + 36, 37 + dlen + 36 + clen);
                        let e = EntryModel { key, data, code: CodeModel::Inline(h, c) };
                        match parse_state_entries(b.skip(37 + dlen + 36 + clen)) {
                            Some(es) => Some(seq![e] + es),
                            None => None,
                        }
                    }
                }
            } else {
                None
            }
        }
    }
}

/// Parse the entries of a state chunk payload, appending them to `acc`.
/// Returns false if and only if the payload is malformed.
pub fn parse_state_payload(b: &[u8], off: usize, acc: &mut Vec<StateEntry>) -> (ok: bool)
    requires
        off <= b@.len(),
    ensures
        ok <==> parse_state_entries(b@.skip(off as int)) is Some,
        ok ==> final(acc)@.map_values(|e: StateEntry| e@)
            == old(acc)@.map_values(|e: StateEntry| e@)
                + parse_state_entries(b@.skip(off as int)).unwrap(),
    decreases b@.len() - off,
{
    let blen = b.len();
    let ghost rest = b@.skip(off as int);
    if off == blen {
        proof {
            assert(rest =~= Seq::<u8>::empty());
            assert(old(acc)@.map_values(|e: StateEntry| e@)
                + parse_state_entries(rest).unwrap()
                =~= old(acc)@.map_values(|e: StateEntry| e@));
        }
        return true;
    }
    if blen - off < 37 {
        return false;
    }
    let key = hash_from_slice(b, off);
    let dlen32 = read_u32(b, off + 32);
    proof {
        assert(b@.subrange(off as int, off + 32) =~= rest.subrange(0, 32));
        assert(b@.subrange(off + 32, off + 36) =~= rest.subrange(32, 36));
    }
    if (dlen32 as usize) > blen - (off + 37) {
        proof {
            assert(rest.len() < 37 + dlen32);
        }
        return false;
    }
    let dlen = dlen32 as usize;
    let data = bytes_from_slice(b, off + 36, dlen);
    proof {
        assert(b@.subrange(off + 36, off + 36 + dlen) =~= rest.subrange(36, 36 + dlen));
    }
    let ctag = b[off + 36 + dlen];
    proof {
        assert(ctag == rest[36 + dlen]);
    }
    let body_end = off + 37 + dlen;
    if ctag == 0 {
        let e = StateEntry { key, data, code: CodeInfo::NoCode };
        acc.push(e);
        let ghost mid = acc@.map_values(|e: StateEntry| e@);
        let ok = parse_state_payload(b, body_end, acc);
        proof {
            assert(b@.skip(body_end as int) =~= rest.skip(37 + dlen));
        }
        if ok {
            proof {
                let es = parse_state_entries(rest).unwrap();
                let tail = parse_state_entries(rest.skip(37 + dlen)).unwrap();
                assert(mid =~= old(acc)@.map_values(|e: StateEntry| e@) + seq![e@]);
                assert(es =~= seq![e@] + tail);
                assert(final(acc)@.map_values(|e: StateEntry| e@)
                    =~= old(acc)@.map_values(|e: StateEntry| e@) + es);
            }
        }
        ok
    } else if ctag == 1 {
        if blen - body_end < 32 {
            return false;
        }
        let h = hash_from_slice(b, body_end);
        proof {
            assert(b@.subrange(body_end as int, body_end + 32)
                =~= rest.subrange(37 + dlen, 37 + dlen + 32));
        }
        let e = StateEntry { key, data, code: CodeInfo::Linked(h) };
        acc.push(e);
        let ghost mid = acc@.map_values(|e: StateEntry| e@);
        let ok = parse_state_payload(b, body_end + 32, acc);
        proof {
            assert(b@.skip(body_end + 32) =~= rest.skip(37 + dlen + 32));
        }
        if ok {
            proof {
                let es = parse_state_entries(rest).unwrap();
                let tail = parse_state_entries(rest.skip(37 + dlen + 32)).unwrap();
                assert(mid =~= old(acc)@.map_values(|e: StateEntry| e@) + seq![e@]);
                assert(es =~= seq![e@] + tail);
                assert(final(acc)@.map_values(|e: StateEntry| e@)
                    =~= old(acc)@.map_values(|e: StateEntry| e@) + es);
            }
        }
        ok
    } else if ctag == 2 {
        if blen - body_end < 36 {
            return false;
        }
        let h = hash_from_slice(b, body_end);
        let clen32 = read_u32(b, body_end + 32);
        proof {
            assert(b@.subrange(body_end as int, body_end + 32)
                =~= rest.subrange(37 + dlen, 37 + dlen + 32));
            assert(b@.subrange(body_end + 32, body_end + 36)
                =~= rest.subrange(37 + dlen + 32, 37 + dlen + 36));
        }
        if (clen32 as usize) > blen - (body_end + 36) {
            proof {
                assert(rest.len() < 37 + dlen + 36 + clen32);
            }
            return false;
        }
        let clen = clen32 as usize;
        let c = bytes_from_slice(b, body_end + 36, clen);
        proof {
            assert(b@.subrange(body_end + 36, body_end + 36 + clen)
                =~= rest.subrange(37 + dlen + 36, 37 + dlen + 36 + clen));
        }
        let e = StateEntry { key, data, code: CodeInfo::Inline(h, c) };
        acc.push(e);
        let ghost mid = acc@.map_values(|e: StateEntry| e@);
        let ok = parse_state_payload(b, body_end + 36 + clen, acc);
        proof {
            assert(b@.skip(body_end + 36 + clen) =~= rest.skip(37 + dlen + 36 + clen));
        }
        if ok {
            proof {
                let es = parse_state_entries(rest).unwrap();
                let tail = parse_state_entries(rest.skip(37 + dlen + 36 + clen)).unwrap();
                assert(mid =~= old(acc)@.map_values(|e: StateEntry| e@) + seq![e@]);
                assert(es =~= seq![e@] + tail);
                assert(final(acc)@.map_values(|e: StateEntry| e@)
                    =~= old(acc)@.map_values(|e: StateEntry| e@) + es);
            }
        }
        ok
    } else {
        false
    }
}

/// One block of a block chunk.
pub struct BlockRecord {
    pub hash: Hash256,
    pub parent: Hash256,
    pub body: Vec<u8>,
}

/// The mathematical content of one block.
pub struct BlockModel {
    pub hash: Seq<u8>,
    pub parent: Seq<u8>,
    pub body: Seq<u8>,
}

impl View for BlockRecord {
    type V = BlockModel;

    open spec fn view(&self) -> BlockModel {
        BlockModel { hash: self.hash@, parent: self.parent@, body: self.body@ }
    }
}

/// Parse `n` consecutive blocks filling the whole of `b`.
pub open spec fn parse_blocks(b: Seq<u8>, n: nat) -> Option<Seq<BlockModel>>
    decreases n,
{
    if n == 0 {
        if b.len() == 0 {
            Some(Seq::empty())
        } else {
            None
        }
    } else if b.len() < 68 {
        None
    } else {
        let blen = spec_u32_from_le_bytes(b.subrange(64, 68)) as int;
        if b.len() < 68 + blen {
            None
        } else {
            let blk = BlockModel {
                hash: b.subrange(0, 32),
                parent: b.subrange(32, 64),
                body: b.subrange(68, 68 + blen),
            };
            match parse_blocks(b.skip(68 + blen), (n - 1) as nat) {
                Some(bs) => Some(seq![blk] + bs),
                None => None,
            }
        }
    }
}

/// Parse a block chunk payload: the first block number and a non-empty run
/// of consecutive blocks, or nothing if and only if it is malformed.
pub open spec fn parse_block_run(b: Seq<u8>) -> Option<(u64, Seq<BlockModel>)> {
    if b.len() < 12 {
        None
    } else {
        let first = spec_u64_from_le_bytes(b.subrange(0, 8));
        let count = spec_u32_from_le_bytes(b.subrange(8, 12));
        if count == 0 {
            None
        } else {
            match parse_blocks(b.skip(12), count as nat) {
                Some(bs) => Some((first, bs)),
                None => None,
            }
        }
    }
}

/// Parse `n` consecutive blocks starting at `off`, appending them to `acc`.
fn parse_blocks_payload(b: &[u8], off: usize, n: u32, acc: &mut Vec<BlockRecord>) -> (ok: bool)
    requires
        off <= b@.len(),
    ensures
        ok <==> parse_blocks(b@.skip(off as int), n as nat) is Some,
        ok ==> final(acc)@.map_values(|r: BlockRecord| r@)
            == old(acc)@.map_values(|r: BlockRecord| r@)
                + parse_blocks(b@.skip(off as int), n as nat).unwrap(),
    decreases n,
{
    let blen = b.len();
    let ghost rest = b@.skip(off as int);
    if n == 0 {
        if off == blen {
            proof {
                assert(rest =~= Seq::<u8>::empty());
                assert(old(acc)@.map_values(|r: BlockRecord| r@)
                    + parse_blocks(rest, 0).unwrap()
                    =~= old(acc)@.map_values(|r: BlockRecord| r@));
            }
            return true;
        }
        proof {
            assert(rest.len() > 0);
        }
        return false;
    }
    if blen - off < 68 {
        return false;
    }
    let hash = hash_from_slice(b, off);
    let parent = hash_from_slice(b, off + 32);
    let len32 = read_u32(b, off + 64);
    proof {
        assert(b@.subrange(off as int, off + 32) =~= rest.subrange(0, 32));
        assert(b@.subrange(off + 32, off + 64) =~= rest.subrange(32, 64));
        assert(b@.subrange(off + 64, off + 68) =~= rest.subrange(64, 68));
    }
    if (len32 as usize) > blen - (off + 68) {
        proof {
            assert(rest.len() < 68 + len32);
        }
        return false;
    }
    let bodylen = len32 as usize;
    let body = bytes_from_slice(b, off + 68, bodylen);
    proof {
        assert(b@.subrange(off + 68, off + 68 + bodylen) =~= rest.subrange(68, 68 + bodylen));
    }
    let blk = BlockRecord { hash, parent, body };
    acc.push(blk);
    let ghost mid = acc@.map_values(|r: BlockRecord| r@);
    let ok = parse_blocks_payload(b, off + 68 + bodylen, n - 1, acc);
    proof {
        assert(b@.skip(off + 68 + bodylen) =~= rest.skip(68 + bodylen));
    }
    if ok {
        proof {
            let bs = parse_blocks(rest, n as nat).unwrap();
            let tail = parse_blocks(rest.skip(68 + bodylen), (n - 1) as nat).unwrap();
            assert(mid =~= old(acc)@.map_values(|r: BlockRecord| r@) + seq![blk@]);
            assert(bs =~= seq![blk@] + tail);
            assert(final(acc)@.map_values(|r: BlockRecord| r@)
                =~= old(acc)@.map_values(|r: BlockRecord| r@) + bs);
        }
    }
    ok
}

/// Parse a block chunk payload.  Returns the first block number and the
/// blocks of the run; `None` if and only if the payload is malformed.
pub fn parse_block_payload(b: &[u8]) -> (r: Option<(u64, Vec<BlockRecord>)>)
    ensures
        r is Some <==> parse_block_run(b@) is Some,
        r is Some ==> {
            &&& r.unwrap().0 == parse_block_run(b@).unwrap().0
            &&& r.unwrap().1@.map_values(|x: BlockRecord| x@) == parse_block_run(b@).unwrap().1
        },
{
    let blen = b.len();
    if blen < 12 {
        return None;
    }
    let first = read_u64(b, 0);
    let count = read_u32(b, 8);
    if count == 0 {
        return None;
    }
    let mut blocks: Vec<BlockRecord> = Vec::new();
    let ok = parse_blocks_payload(b, 12, count, &mut blocks);
    if !ok {
        return None;
    }
    proof {
        assert(blocks@.map_values(|x: BlockRecord| x@)
            =~= parse_blocks(b@.skip(12), count as nat).unwrap());
    }
    Some((first, blocks))
}

} // verus!
