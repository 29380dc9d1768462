//! The typed command surface and the pure stages of the two operations:
//! choosing the keypair source, defaulting the signer format, and turning
//! a base64 transaction blob into the bytes to submit.

use vstd::prelude::*;

use crate::envelope::{ed25519_sig_of, env_bytes, parse_env_spec, signer_slot, slot_available,
    TransactionEnvelope};
use crate::errors::CliError;
use crate::format::Format;
use crate::keypair::{ed25519_keypair_ok, Keypair};

verus! {

/// A parsed command line: one of the two operations, or nothing (which
/// prints the help text).
pub struct Cli {
    pub command: Option<Commands>,
}

/// The two operations.
pub enum Commands {
    /// Re-encode a keypair into `transform`, reading it from a file or
    /// from a raw value; exactly one of the two sources must be given.
    KeypairTransform { transform: Format, path: Option<String>, value: Option<String> },
    /// Decode a base64 transaction envelope, optionally co-sign it with
    /// the keypair at `signer` (read in `format`, `Bytes` when omitted),
    /// and submit it to the node at `url`.
    TransactionSend {
        url: String,
        transaction: String,
        signer: Option<String>,
        format: Option<Format>,
    },
}

/// Where a keypair's text comes from.
pub enum KeypairSource {
    FromFile(String),
    FromValue(String),
}

/// Chooses the keypair source: exactly one of `path` and `value` must be
/// given; both or neither is an argument error, never a crash.
pub fn select_keypair_source(path: Option<String>, value: Option<String>) -> (r: Result<
    KeypairSource,
    CliError,
>)
    ensures
        match r {
            Ok(KeypairSource::FromFile(p)) => path matches Some(p0) && p@ == p0@ && value is None,
            Ok(KeypairSource::FromValue(v)) => value matches Some(v0) && v@ == v0@
                && path is None,
            Err(e) => e == CliError::ArgumentError && ((path is Some && value is Some) || (
            path is None && value is None)),
        },
{
    match (path, value) {
        (Some(p), None) => Ok(KeypairSource::FromFile(p)),
        (None, Some(v)) => Ok(KeypairSource::FromValue(v)),
        _ => Err(CliError::ArgumentError),
    }
}

/// The format a signer's keypair file is read in: the given one, or
/// `Bytes` when none was given.
pub fn effective_signer_format(format: Option<Format>) -> (r: Format)
    ensures
        r == match format {
            Some(f) => f,
            None => Format::Bytes,
        },
{
    match format {
        Some(f) => f,
        None => Format::Bytes,
    }
}

/// The bytes that base64 text denotes, if it is valid base64.
pub uninterp spec fn base64_decoding(s: Seq<char>) -> Option<Seq<u8>>;

/// Relies on `base64::decode` (the standard alphabet, with padding): the
/// result depends on the text alone, and text that is not valid base64 is
/// refused.
#[verifier::external_body]
fn b64_decode(s: &str) -> (r: Option<Vec<u8>>)
    ensures
        match r {
            Some(v) => base64_decoding(s@) == Some(v@),
            None => base64_decoding(s@) is None,
        },
{
    match base64::decode(s) {
        Ok(v) => Some(v),
        Err(_) => None,
    }
}

/// Turns the base64 transaction text into the exact bytes to submit:
/// decodes and parses the envelope, and, when a signer is given, fills
/// that signer's signature slot; without a signer the decoded bytes are
/// returned untouched. `MalformedTransaction` comes exactly when the text
/// is not base64 or the envelope's signature table is broken, and before
/// any signing; nothing here performs network work.
pub fn prepare_transaction(transaction: &str, signer: Option<&Keypair>) -> (r: Result<
    Vec<u8>,
    CliError,
>)
    requires
        signer matches Some(kp) ==> kp.wf(),
    ensures
        match r {
            Ok(out) => {
                &&& base64_decoding(transaction@) matches Some(raw)
                &&& parse_env_spec(raw) matches Some(pair)
                &&& match signer {
                    None => out@ == raw,
                    Some(kp) => signer_slot(pair.1, kp.spec_public()) matches Some(i) && 0 <= i
                        < pair.0.len() && ed25519_keypair_ok(kp@) && out@ == env_bytes(
                        pair.0.update(i, ed25519_sig_of(kp@, pair.1)),
                        pair.1,
                    ),
                }
            },
            Err(e) => match e {
                CliError::MalformedTransaction => base64_decoding(transaction@) is None || (
                base64_decoding(transaction@) matches Some(raw) && parse_env_spec(raw) is None),
                CliError::SignerMismatch => {
                    &&& signer is Some
                    &&& base64_decoding(transaction@) matches Some(raw)
                    &&& parse_env_spec(raw) matches Some(pair)
                    &&& !slot_available(pair.1, signer.unwrap().spec_public(), pair.0.len() as int)
                },
                CliError::InvalidKeypairEncoding => {
                    &&& signer is Some
                    &&& base64_decoding(transaction@) matches Some(raw)
                    &&& parse_env_spec(raw) matches Some(pair)
                    &&& slot_available(pair.1, signer.unwrap().spec_public(), pair.0.len() as int)
                    &&& !ed25519_keypair_ok(signer.unwrap()@)
                },
                _ => false,
            },
        },
{
    let raw = match b64_decode(transaction) {
        Some(v) => v,
        None => {
            return Err(CliError::MalformedTransaction);
        },
    };
    let env = match TransactionEnvelope::parse(&raw) {
        Ok(e) => e,
        Err(e) => {
            return Err(e);
        },
    };
    match signer {
        None => Ok(raw),
        Some(kp) => {
            let mut env = env;
            match env.sign_with(kp) {
                Ok(()) => Ok(env.to_bytes()),
                Err(e) => Err(e),
            }
        },
    }
}

} // verus!
