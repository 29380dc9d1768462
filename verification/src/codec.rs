//! The keypair codec: decoding keypair text in either format into the 64
//! key bytes, re-encoding them, and the transform operation that converts
//! between the two formats.

use vstd::prelude::*;

use crate::base58::{base58_decoding, base58_text_of, bs58_decode, bs58_encode};
use crate::bytes_text::{bytes_text_of, lemma_bytes_text_round_trip, parse_bytes_spec,
    parse_bytes_text, render_bytes};
use crate::errors::CliError;
use crate::format::Format;
use crate::keypair::{ed25519_keypair_ok, keypair_bytes_ok, Keypair, KEYPAIR_LEN};

verus! {

/// The bytes that keypair text denotes in a format: the text must be valid
/// in that format and hold exactly 64 bytes.
pub open spec fn decode_spec(s: Seq<char>, f: Format) -> Option<Seq<u8>> {
    let raw = match f {
        Format::Base58 => base58_decoding(s),
        Format::Bytes => parse_bytes_spec(s),
    };
    match raw {
        Some(b) => if b.len() == KEYPAIR_LEN {
            Some(b)
        } else {
            None
        },
        None => None,
    }
}

/// The text of keypair bytes in a format.
pub open spec fn encode_spec(b: Seq<u8>, f: Format) -> Seq<char> {
    match f {
        Format::Base58 => base58_text_of(b),
        Format::Bytes => bytes_text_of(b),
    }
}

/// Decodes keypair text; fails with `InvalidKeypairEncoding` exactly when
/// the text is not valid in the format, does not hold 64 bytes, or holds
/// 64 bytes that are not a structurally valid keypair (public half not
/// derived from the secret half).
pub fn decode(raw: &str, format: Format) -> (r: Result<Keypair, CliError>)
    ensures
        match r {
            Ok(kp) => kp.wf() && decode_spec(raw@, format) == Some(kp@) && ed25519_keypair_ok(
                kp@,
            ),
            Err(e) => e == CliError::InvalidKeypairEncoding && (decode_spec(raw@, format) is None
                || !ed25519_keypair_ok(decode_spec(raw@, format).unwrap())),
        },
{
    let bytes_opt = match format {
        Format::Base58 => bs58_decode(raw),
        Format::Bytes => parse_bytes_text(raw),
    };
    match bytes_opt {
        Some(b) => match Keypair::from_vec(b) {
            Some(kp) => {
                if keypair_bytes_ok(kp.as_bytes()) {
                    Ok(kp)
                } else {
                    Err(CliError::InvalidKeypairEncoding)
                }
            },
            None => Err(CliError::InvalidKeypairEncoding),
        },
        None => Err(CliError::InvalidKeypairEncoding),
    }
}

/// Encodes a keypair; decoding the result in the same format gives the
/// keypair back.
pub fn encode(kp: &Keypair, format: Format) -> (r: String)
    requires
        kp.wf(),
    ensures
        r@ == encode_spec(kp@, format),
        decode_spec(r@, format) == Some(kp@),
{
    match format {
        Format::Base58 => bs58_encode(kp.as_bytes()),
        Format::Bytes => {
            let s = render_bytes(kp.as_bytes());
            proof {
                lemma_bytes_text_round_trip(kp@);
            }
            s
        },
    }
}

/// Round trip of the byte-array format: encoding 64 key bytes and
/// decoding the text gives the bytes back. (The same holds of the base-58
/// format; there it is carried by the contracts of [`encode`] and
/// [`decode`], which rest on the base-58 library inverting itself.)
pub proof fn lemma_bytes_codec_round_trip(b: Seq<u8>)
    requires
        b.len() == KEYPAIR_LEN,
    ensures
        decode_spec(encode_spec(b, Format::Bytes), Format::Bytes) == Some(b),
{
    lemma_bytes_text_round_trip(b);
}

/// The transform operation: the input is decoded in the format opposite to
/// the requested target, then re-encoded into the target.
pub open spec fn transform_spec(s: Seq<char>, target: Format) -> Option<Seq<char>> {
    match decode_spec(s, target.spec_opposite()) {
        Some(b) => if ed25519_keypair_ok(b) {
            Some(encode_spec(b, target))
        } else {
            None
        },
        None => None,
    }
}

/// Converts keypair text into the target format, reading the input in the
/// opposite format; fails with `InvalidKeypairEncoding` exactly when the
/// input is not a structurally valid keypair in that opposite format.
pub fn transform(raw: &str, target: Format) -> (r: Result<String, CliError>)
    ensures
        match r {
            Ok(out) => transform_spec(raw@, target) == Some(out@),
            Err(e) => e == CliError::InvalidKeypairEncoding && transform_spec(raw@, target) is None,
        },
{
    match decode(raw, target.opposite()) {
        Ok(kp) => Ok(encode(&kp, target)),
        Err(e) => Err(e),
    }
}

} // verus!
