//! The compact base-58 text encoding of key material, done by the `bs58`
//! crate behind named results: the encoding is a pure function of the
//! bytes, and decoding inverts it.

use vstd::prelude::*;

verus! {

/// The base-58 text (Bitcoin alphabet) of the bytes `b`.
pub uninterp spec fn base58_text_of(b: Seq<u8>) -> Seq<char>;

/// The bytes that base-58 text denotes, if it is valid base-58.
pub uninterp spec fn base58_decoding(s: Seq<char>) -> Option<Seq<u8>>;

/// Relies on `bs58::encode` with its default (Bitcoin) alphabet: the text
/// depends on the bytes alone, and `bs58::decode` recovers the bytes from
/// it.
#[verifier::external_body]
pub(crate) fn bs58_encode(b: &Vec<u8>) -> (r: String)
    ensures
        r@ == base58_text_of(b@),
        base58_decoding(r@) == Some(b@),
{
    bs58::encode(b).into_string()
}

/// Relies on `bs58::decode` with its default (Bitcoin) alphabet: the
/// result depends on the text alone, and invalid base-58 is refused.
#[verifier::external_body]
pub(crate) fn bs58_decode(s: &str) -> (r: Option<Vec<u8>>)
    ensures
        match r {
            Some(v) => base58_decoding(s@) == Some(v@),
            None => base58_decoding(s@) is None,
        },
{
    match bs58::decode(s).into_vec() {
        Ok(v) => Some(v),
        Err(_) => None,
    }
}

} // verus!
