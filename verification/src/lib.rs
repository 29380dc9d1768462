//! Operator utilities for a ledger node: keypair re-encoding between a
//! base-58 string and a byte-array literal, and preparation of a pre-built
//! transaction envelope (decode, optional co-signing) for submission.

pub mod errors;
pub mod format;
pub mod keypair;
pub mod bytes_text;
pub mod base58;
pub mod codec;
pub mod moniker;
pub mod shortvec;
pub mod envelope;
pub mod command;
