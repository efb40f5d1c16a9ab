//! Names of saved application icons.
use vstd::prelude::*;
use crate::crypto::{self, hex_encode, sha256_digest};
use crate::text::sub_vec;
use crate::strs::{char_vec, string_from_chars};

verus! {

/// The file name stem of an icon: the first 16 lowercase hexadecimal digits
/// of the SHA-256 of its PNG bytes.
pub fn calculate_icon_hash(data: &[u8]) -> (r: String)
    ensures
        r@ == crypto::hex_lower(crypto::sha256(data@)).take(16),
{
    let digest = sha256_digest(data);
    let hex = hex_encode(digest.as_slice());
    let chars = char_vec(hex.as_str());
    proof {
        lemma_hex_len(digest@);
    }
    let head = sub_vec(&chars, 0, 16);
    assert(head@ =~= chars@.take(16));
    string_from_chars(&head)
}

proof fn lemma_hex_len(b: Seq<u8>)
    ensures
        crypto::hex_lower(b).len() == 2 * b.len(),
    decreases b.len(),
{
    if b.len() > 0 {
        lemma_hex_len(b.drop_last());
    }
}

} // verus!
