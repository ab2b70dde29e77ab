//! Key-derivation helpers shared by the key store and the network stack.

use vstd::prelude::*;

verus! {

/// The length of a derived key, in bytes.
pub const KEY_LENGTH: usize = 32;

/// The default iteration count for password-based key derivation.
pub const KEY_ITERATIONS: usize = 10240;

/// The length of the AES half of a derived key.
pub const KEY_LENGTH_AES: usize = KEY_LENGTH / 2;

/// The bytes a message-authentication code is computed over: the left half
/// of the derived key followed by the cipher text.
pub fn derive_mac(derived_left_bits: &[u8], cipher_text: &[u8]) -> (mac: Vec<u8>)
    requires
        derived_left_bits@.len() == KEY_LENGTH_AES,
    ensures
        mac@ == derived_left_bits@ + cipher_text@,
{
    let left_len = derived_left_bits.len();
    let right_len = cipher_text.len();
    let mut mac: Vec<u8> = Vec::new();
    let mut i: usize = 0;
    while i < left_len
        invariant
            i <= left_len,
            left_len == derived_left_bits@.len(),
            mac@ == derived_left_bits@.take(i as int),
        decreases left_len - i,
    {
        mac.push(derived_left_bits[i]);
        proof {
            assert(derived_left_bits@.take(i as int).push(derived_left_bits@[i as int])
                =~= derived_left_bits@.take(i + 1));
        }
        i = i + 1;
    }
    proof {
        assert(derived_left_bits@.take(left_len as int) =~= derived_left_bits@);
    }
    let mut j: usize = 0;
    while j < right_len
        invariant
            j <= right_len,
            right_len == cipher_text@.len(),
            mac@ == derived_left_bits@ + cipher_text@.take(j as int),
        decreases right_len - j,
    {
        mac.push(cipher_text[j]);
        proof {
            assert((derived_left_bits@ + cipher_text@.take(j as int)).push(cipher_text@[j as int])
                =~= derived_left_bits@ + cipher_text@.take(j + 1));
        }
        j = j + 1;
    }
    proof {
        assert(cipher_text@.take(right_len as int) =~= cipher_text@);
    }
    mac
}

} // verus!
