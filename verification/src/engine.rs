//! The consensus engine: the injected collaborator that judges block seals.

use vstd::prelude::*;

verus! {

/// Consensus rules, as far as the restoration needs them: a judgement on
/// each block's seal.  Implementations must prove that the executable check
/// agrees with their own `seal_ok` specification.
pub trait Engine {
    /// Whether the consensus rules accept this block's seal.
    spec fn seal_ok(&self, block: Seq<u8>) -> bool;

    /// Check a block's seal.
    fn verify_block_seal(&self, block: &Vec<u8>) -> (r: bool)
        ensures
            r == self.seal_ok(block@),
    ;
}

/// An engine without seals: every block is accepted.
pub struct NullEngine;

impl Engine for NullEngine {
    open spec fn seal_ok(&self, block: Seq<u8>) -> bool {
        true
    }

    fn verify_block_seal(&self, block: &Vec<u8>) -> (r: bool) {
        true
    }
}

/// An engine whose seal is a leading marker byte: a block is accepted if
/// and only if its body starts with the engine's marker.
pub struct MarkerSealEngine {
    pub marker: u8,
}

impl Engine for MarkerSealEngine {
    open spec fn seal_ok(&self, block: Seq<u8>) -> bool {
        block.len() > 0 && block[0] == self.marker
    }

    fn verify_block_seal(&self, block: &Vec<u8>) -> (r: bool) {
        block.len() > 0 && block[0] == self.marker
    }
}

} // verus!
