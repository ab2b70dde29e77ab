//! Content hashes: the 32-byte identifiers of snapshot chunks.
//!
//! A chunk is named by the hash of its compressed bytes, and the files of
//! the loose snapshot format carry the lowercase hex spelling of that hash
//! as their basename.

use vstd::prelude::*;
use tiny_keccak::Hasher;

verus! {

/// A 32-byte content hash: the identifier of a snapshot chunk, and the
/// root that authenticates the rebuilt account state.
#[derive(Clone, Copy, Debug)]
pub struct Hash256 {
    pub bytes: [u8; 32],
}

impl View for Hash256 {
    type V = Seq<u8>;

    open spec fn view(&self) -> Seq<u8> {
        self.bytes@
    }
}

impl PartialEq for Hash256 {
    fn eq(&self, other: &Hash256) -> (r: bool) {
        let mut i: usize = 0;
        while i < 32
            invariant
                i <= 32,
                forall|j: int| 0 <= j < i ==> self.bytes@[j] == other.bytes@[j],
            decreases 32 - i,
        {
            if self.bytes[i] != other.bytes[i] {
                return false;
            }
            i = i + 1;
        }
        proof {
            assert(self.bytes@ =~= other.bytes@);
        }
        true
    }
}

impl vstd::std_specs::cmp::PartialEqSpecImpl for Hash256 {
    open spec fn obeys_eq_spec() -> bool {
        true
    }

    open spec fn eq_spec(&self, other: &Hash256) -> bool {
        self@ == other@
    }
}

impl Eq for Hash256 {}

impl Hash256 {
    /// The lowercase hex spelling of the hash, used as a file basename in
    /// the loose snapshot format.
    pub fn hex_name(&self) -> (r: Vec<u8>)
        ensures
            r@ == hex_of(self@),
    {
        hex_bytes(&self.bytes)
    }
}

/// The lowercase hex digit of a value below 16.
pub open spec fn hex_digit(n: u8) -> u8 {
    if n < 10 {
        (48 + n) as u8
    } else {
        (87 + n) as u8
    }
}

/// The lowercase hex spelling of a byte string, two digits per byte.
pub open spec fn hex_of(s: Seq<u8>) -> Seq<u8>
    decreases s.len(),
{
    if s.len() == 0 {
        Seq::empty()
    } else {
        seq![hex_digit(s[0] / 16), hex_digit(s[0] % 16)] + hex_of(s.skip(1))
    }
}

proof fn lemma_hex_of_push(s: Seq<u8>, b: u8)
    ensures
        hex_of(s.push(b)) == hex_of(s) + seq![hex_digit(b / 16), hex_digit(b % 16)],
    decreases s.len(),
{
    if s.len() == 0 {
        assert(s.push(b)[0] == b);
        assert(s.push(b).skip(1) =~= Seq::<u8>::empty());
        assert(hex_of(s.push(b)) == seq![hex_digit(b / 16), hex_digit(b % 16)]
            + hex_of(s.push(b).skip(1)));
        assert(s =~= Seq::<u8>::empty());
        assert(hex_of(s.push(b)) =~= hex_of(s) + seq![hex_digit(b / 16), hex_digit(b % 16)]);
    } else {
        assert(s.push(b)[0] == s[0]);
        assert(s.push(b).skip(1) =~= s.skip(1).push(b));
        lemma_hex_of_push(s.skip(1), b);
        assert(hex_of(s.push(b)) == seq![hex_digit(s[0] / 16), hex_digit(s[0] % 16)]
            + (hex_of(s.skip(1)) + seq![hex_digit(b / 16), hex_digit(b % 16)]));
        assert(hex_of(s.push(b)) =~= hex_of(s) + seq![hex_digit(b / 16), hex_digit(b % 16)]);
    }
}

/// Spell a byte string in lowercase hex, two digits per byte.
pub fn hex_bytes(s: &[u8]) -> (r: Vec<u8>)
    ensures
        r@ == hex_of(s@),
{
    let mut r: Vec<u8> = Vec::new();
    let mut i: usize = 0;
    while i < s.len()
        invariant
            i <= s@.len(),
            r@ == hex_of(s@.take(i as int)),
        decreases s@.len() - i,
    {
        let b = s[i];
        let hi = b / 16;
        let lo = b % 16;
        r.push(if hi < 10 { 48 + hi } else { 87 + hi });
        r.push(if lo < 10 { 48 + lo } else { 87 + lo });
        proof {
            lemma_hex_of_push(s@.take(i as int), b);
            assert(s@.take(i as int).push(b) =~= s@.take(i + 1 as int));
        }
        i = i + 1;
    }
    proof {
        assert(s@.take(s@.len() as int) =~= s@);
    }
    r
}


pub proof fn lemma_hex_of_len(s: Seq<u8>)
    ensures
        hex_of(s).len() == 2 * s.len(),
    decreases s.len(),
{
    if s.len() > 0 {
        lemma_hex_of_len(s.skip(1));
    }
}

proof fn lemma_hex_digit_injective(a: u8, b: u8)
    requires
        a < 16,
        b < 16,
        hex_digit(a) == hex_digit(b),
    ensures
        a == b,
{
}

/// Distinct byte strings have distinct hex spellings.
pub proof fn lemma_hex_of_injective(s: Seq<u8>, t: Seq<u8>)
    requires
        hex_of(s) == hex_of(t),
    ensures
        s == t,
    decreases s.len(),
{
    lemma_hex_of_len(s);
    lemma_hex_of_len(t);
    if s.len() == 0 {
        assert(s =~= t);
    } else {
        assert(hex_of(s)[0] == hex_digit(s[0] / 16) && hex_of(s)[1] == hex_digit(s[0] % 16));
        assert(hex_of(t)[0] == hex_digit(t[0] / 16) && hex_of(t)[1] == hex_digit(t[0] % 16));
        lemma_hex_digit_injective(s[0] / 16, t[0] / 16);
        lemma_hex_digit_injective(s[0] % 16, t[0] % 16);
        assert(s[0] == t[0]);
        assert(hex_of(s) == seq![hex_digit(s[0] / 16), hex_digit(s[0] % 16)] + hex_of(s.skip(1)));
        assert(hex_of(t) == seq![hex_digit(t[0] / 16), hex_digit(t[0] % 16)] + hex_of(t.skip(1)));
        lemma_hex_of_len(s.skip(1));
        lemma_hex_of_len(t.skip(1));
        assert forall|k: int| 0 <= k < hex_of(s.skip(1)).len() implies hex_of(s.skip(1))[k]
            == hex_of(t.skip(1))[k] by {
            assert(hex_of(s.skip(1))[k] == hex_of(s)[k + 2]);
            assert(hex_of(t.skip(1))[k] == hex_of(t)[k + 2]);
        }
        assert(hex_of(s.skip(1)) =~= hex_of(t.skip(1)));
        lemma_hex_of_injective(s.skip(1), t.skip(1));
        assert forall|k: int| 0 <= k < s.len() implies s[k] == t[k] by {
            if k > 0 {
                assert(s[k] == s.skip(1)[k - 1]);
                assert(t[k] == t.skip(1)[k - 1]);
            }
        }
        assert(s =~= t);
    }
}

/// What the keccak-256 digest of a byte string is.  The digest is fixed by
/// the input bytes alone; its value is not stated here.
pub uninterp spec fn keccak_of(data: Seq<u8>) -> Seq<u8>;

/// Relies on tiny_keccak's keccak-256: a 32-byte digest that is a function
/// of the input bytes alone.
#[verifier::external_body]
pub fn keccak256(data: &[u8]) -> (h: Hash256)
    ensures
        h@ == keccak_of(data@),
{
    let mut k = tiny_keccak::Keccak::v256();
    k.update(data);
    let mut out = [0u8; 32];
    k.finalize(&mut out);
    Hash256 { bytes: out }
}

} // verus!
