//! Expansion of node-URL monikers: the well-known cluster names, or their
//! first letters, resolve to the canonical endpoint; anything else passes
//! through unchanged.

use vstd::prelude::*;
use vstd::string::StringExecFns;

verus! {

/// The node URL that an input resolves to.
pub open spec fn resolved_url(s: Seq<char>) -> Seq<char> {
    if s == "m"@ || s == "mainnet-beta"@ {
        "https://api.mainnet-beta.solana.com"@
    } else if s == "t"@ || s == "testnet"@ {
        "https://api.testnet.solana.com"@
    } else if s == "d"@ || s == "devnet"@ {
        "https://api.devnet.solana.com"@
    } else if s == "l"@ || s == "localhost"@ {
        "http://localhost:8899"@
    } else {
        s
    }
}

/// Character-for-character string equality.
fn str_equals(a: &str, b: &str) -> (r: bool)
    ensures
        r == (a@ == b@),
{
    let na = a.unicode_len();
    let nb = b.unicode_len();
    if na != nb {
        proof {
            if a@ == b@ {
                assert(a@.len() == b@.len());
            }
        }
        return false;
    }
    let mut i: usize = 0;
    while i < na
        invariant
            na == a@.len(),
            na == b@.len(),
            i <= na,
            forall|j: int| 0 <= j < i ==> a@[j] == b@[j],
        decreases na - i,
    {
        if a.get_char(i) != b.get_char(i) {
            return false;
        }
        i += 1;
    }
    proof {
        assert(a@ =~= b@);
    }
    true
}

/// Expands a cluster moniker (or its first letter) to the canonical node
/// URL; any other input is returned as it came.
pub fn normalize_to_url_if_moniker(url: &str) -> (r: String)
    ensures
        r@ == resolved_url(url@),
{
    if str_equals(url, "m") || str_equals(url, "mainnet-beta") {
        String::from_str("https://api.mainnet-beta.solana.com")
    } else if str_equals(url, "t") || str_equals(url, "testnet") {
        String::from_str("https://api.testnet.solana.com")
    } else if str_equals(url, "d") || str_equals(url, "devnet") {
        String::from_str("https://api.devnet.solana.com")
    } else if str_equals(url, "l") || str_equals(url, "localhost") {
        String::from_str("http://localhost:8899")
    } else {
        url.to_owned()
    }
}

} // verus!
