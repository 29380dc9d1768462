//! The keypair value: 64 bytes of key material, the 32-byte secret half
//! followed by the 32-byte public half.

use vstd::prelude::*;

verus! {

/// Number of bytes in a keypair: secret half plus public half.
pub const KEYPAIR_LEN: usize = 64;

/// Number of bytes in each half of a keypair.
pub const KEY_HALF_LEN: usize = 32;

/// An opaque signing keypair, held as its 64 raw bytes.
pub struct Keypair {
    bytes: Vec<u8>,
}

impl View for Keypair {
    type V = Seq<u8>;

    closed spec fn view(&self) -> Seq<u8> {
        self.bytes@
    }
}

impl Keypair {
    /// A keypair is well formed when it holds exactly 64 bytes.
    pub open spec fn wf(&self) -> bool {
        self@.len() == KEYPAIR_LEN
    }

    /// The secret half: the first 32 bytes.
    pub open spec fn spec_secret(&self) -> Seq<u8> {
        self@.subrange(0, KEY_HALF_LEN as int)
    }

    /// The public half: the last 32 bytes.
    pub open spec fn spec_public(&self) -> Seq<u8> {
        self@.subrange(KEY_HALF_LEN as int, KEYPAIR_LEN as int)
    }

    /// Wraps 64 raw bytes as a keypair; any other length is rejected.
    pub fn from_vec(bytes: Vec<u8>) -> (r: Option<Keypair>)
        ensures
            match r {
                Some(kp) => kp.wf() && kp@ == bytes@,
                None => bytes@.len() != KEYPAIR_LEN,
            },
    {
        if bytes.len() == KEYPAIR_LEN {
            Some(Keypair { bytes })
        } else {
            None
        }
    }

    /// The raw bytes.
    pub fn as_bytes(&self) -> (r: &Vec<u8>)
        ensures
            r@ == self@,
    {
        &self.bytes
    }

    /// The public half as a fresh vector.
    pub fn public_bytes(&self) -> (r: Vec<u8>)
        requires
            self.wf(),
        ensures
            r@ == self.spec_public(),
    {
        let mut out: Vec<u8> = Vec::new();
        let mut i: usize = KEY_HALF_LEN;
        while i < KEYPAIR_LEN
            invariant
                KEY_HALF_LEN <= i <= KEYPAIR_LEN,
                self.wf(),
                out@ == self@.subrange(KEY_HALF_LEN as int, i as int),
            decreases KEYPAIR_LEN - i,
        {
            out.push(self.bytes[i]);
            i += 1;
            assert(out@ =~= self@.subrange(KEY_HALF_LEN as int, i as int));
        }
        assert(out@ =~= self.spec_public());
        out
    }
}

/// Whether 64 bytes form a structurally valid signing keypair: the public
/// half is a valid curve point and is the key derived from the secret
/// half. A condition of the bytes alone.
pub uninterp spec fn ed25519_keypair_ok(kp: Seq<u8>) -> bool;

/// Relies on `solana_sdk::signature::Keypair::from_bytes`: it accepts a
/// 64-byte array exactly when the last 32 bytes are the public key that
/// the first 32 bytes derive, a deterministic condition of the bytes.
#[verifier::external_body]
pub(crate) fn keypair_bytes_ok(kp: &Vec<u8>) -> (r: bool)
    requires
        kp@.len() == KEYPAIR_LEN,
    ensures
        r == ed25519_keypair_ok(kp@),
{
    solana_sdk::signature::Keypair::from_bytes(kp.as_slice()).is_ok()
}

} // verus!
