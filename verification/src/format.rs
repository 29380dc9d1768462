//! The two textual encodings a keypair can be rendered in.

use vstd::prelude::*;

verus! {

/// A keypair's textual encoding: a compact base-58 string, or a literal
/// byte-array rendering such as `[12, 34, 56]`.
#[derive(Copy, Clone, Debug, PartialEq, Eq, Structural)]
pub enum Format {
    Base58,
    Bytes,
}

impl Format {
    /// The other encoding.
    pub open spec fn spec_opposite(self) -> Format {
        match self {
            Format::Base58 => Format::Bytes,
            Format::Bytes => Format::Base58,
        }
    }

    /// The transform operation decodes its input in the encoding opposite
    /// to the requested target, then re-encodes into the target.
    pub fn opposite(self) -> (r: Format)
        ensures
            r == self.spec_opposite(),
    {
        match self {
            Format::Base58 => Format::Bytes,
            Format::Bytes => Format::Base58,
        }
    }
}

} // verus!
