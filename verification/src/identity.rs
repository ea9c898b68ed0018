//! Identities: the parties that own tokens and call the ledger.

use vstd::prelude::*;

verus! {

/// A party known to the ledger: an account key or a contract hash of 256 bits.
///
/// The ledger never inspects an identity beyond comparing it with another.
/// That a caller really is the identity it names is established by the host
/// before the ledger is called.
#[derive(Clone, Copy, Debug, PartialEq, Eq, Hash, Structural)]
pub struct Identity {
    /// Whether the identity is a contract rather than an account.
    pub contract: bool,
    /// The upper 128 bits of the key or hash.
    pub high: u128,
    /// The lower 128 bits of the key or hash.
    pub low: u128,
}

impl Identity {
    /// The account whose key has the given halves.
    pub fn account(high: u128, low: u128) -> (id: Identity)
        ensures
            id == (Identity { contract: false, high, low }),
    {
        Identity { contract: false, high, low }
    }

    /// The contract whose hash has the given halves.
    pub fn contract(high: u128, low: u128) -> (id: Identity)
        ensures
            id == (Identity { contract: true, high, low }),
    {
        Identity { contract: true, high, low }
    }

    /// Whether two identities are the same party.
    pub fn same(&self, other: &Identity) -> (r: bool)
        ensures
            r == (*self == *other),
    {
        self.contract == other.contract && self.high == other.high && self.low == other.low
    }
}

} // verus!
