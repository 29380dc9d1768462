//! Error taxonomy: everything upstream of network submission is a local
//! precondition failure that the caller treats as fatal; only the remote
//! node's rejection is reported and recovered from.

use vstd::prelude::*;

verus! {

/// Failure kinds of the two command pipelines.
#[derive(Copy, Clone, Debug, PartialEq, Eq, Structural)]
pub enum CliError {
    /// Malformed or missing command-line input.
    ArgumentError,
    /// A keypair file could not be opened or read.
    FileIOError,
    /// A keypair's textual form could not be decoded in the chosen format.
    InvalidKeypairEncoding,
    /// The transaction blob is not base64, or its binary layout is broken.
    MalformedTransaction,
    /// The signer's public key owns no signature slot of the envelope.
    SignerMismatch,
    /// The remote node rejected or could not confirm the transaction.
    SubmissionError,
}

} // verus!
