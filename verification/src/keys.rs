//! The keys under which the ledger's state is persisted, the retention tier
//! each key class is pinned to, and the ledger's error and event vocabulary.

use vstd::prelude::*;
use crate::identity::Identity;

verus! {

/// The retention class of a backing keyed store.
#[derive(Clone, Copy, Debug, PartialEq, Eq, Structural)]
pub enum Tier {
    /// Short retention: every entry carries an expiry horizon, after which
    /// the store no longer returns it.
    Temporary,
    /// One area whose retention is tied to the ledger's own lifetime.
    Instance,
    /// Per-entry retention that can be extended independently.
    Persistent,
}

impl Tier {
    /// Whether entries of this tier lapse at a horizon given when they are written.
    pub fn expires(&self) -> (r: bool)
        ensures
            r == (*self == Tier::Temporary),
    {
        match self {
            Tier::Temporary => true,
            Tier::Instance => false,
            Tier::Persistent => false,
        }
    }
}

/// The slot that holds the administrator.
#[derive(Clone, Copy, Debug, PartialEq, Eq, Structural)]
pub enum Admin {
    User,
}

impl Admin {
    /// The administrator is durable state.
    pub fn tier(&self) -> (t: Tier)
        ensures
            t == Tier::Persistent,
    {
        Tier::Persistent
    }
}

/// Keys of the ownership ledger and of the approval registry.
#[derive(Clone, Copy, Debug, PartialEq, Eq, Structural)]
pub enum DataKey {
    /// The number of tokens an identity holds.
    Balance(Identity),
    /// The owner of a token.
    TokenOwner(u32),
    /// The single approved identity of a token.
    Approved(u32),
    /// The blanket approval an owner gave an operator.
    Operator(Identity, Identity),
}

impl DataKey {
    /// Whether the key belongs to the approval registry.
    pub open spec fn is_approval(&self) -> bool {
        self is Approved || self is Operator
    }

    /// Ownership and balances are durable; approvals are short-lived and lapse.
    pub fn tier(&self) -> (t: Tier)
        ensures
            t == (if self.is_approval() { Tier::Temporary } else { Tier::Persistent }),
    {
        match self {
            DataKey::Balance(_) => Tier::Persistent,
            DataKey::TokenOwner(_) => Tier::Persistent,
            DataKey::Approved(_) => Tier::Temporary,
            DataKey::Operator(_, _) => Tier::Temporary,
        }
    }
}

/// Keys of the descriptive metadata.
#[derive(Clone, Copy, Debug, PartialEq, Eq, Structural)]
pub enum DatakeyMetadata {
    Name,
    Symbol,
    Uri(u32),
}

impl DatakeyMetadata {
    /// Metadata lives as long as the ledger does.
    pub fn tier(&self) -> (t: Tier)
        ensures
            t == Tier::Instance,
    {
        Tier::Instance
    }
}

/// Keys of the enumeration index.
#[derive(Clone, Copy, Debug, PartialEq, Eq, Structural)]
pub enum DataKeyEnumerable {
    /// The dense list of all live tokens.
    IndexToken,
    /// The position of each live token in that list.
    TokenIndex,
    /// The dense list of the tokens of one owner.
    OwnerIndexToken(Identity),
    /// The position of each of an owner's tokens in the owner's list.
    OwnerTokenIndex(Identity),
}

impl DataKeyEnumerable {
    /// The enumeration lives as long as the ledger does.
    pub fn tier(&self) -> (t: Tier)
        ensures
            t == Tier::Instance,
    {
        Tier::Instance
    }
}

/// Keys of the pixel collection's own state.
#[derive(Clone, Copy, Debug, PartialEq, Eq, Structural)]
pub enum MillionDataKey {
    /// The next token id to hand out.
    TokenId,
    /// The asset in which a mint is paid.
    AssetAddress,
    /// The price of one mint.
    Price,
}

impl MillionDataKey {
    /// The collection's state lives as long as the collection does.
    pub fn tier(&self) -> (t: Tier)
        ensures
            t == Tier::Instance,
    {
        Tier::Instance
    }
}

/// Why the ledger rejected an operation. A rejected operation changes nothing.
#[derive(Clone, Copy, Debug, PartialEq, Eq, Structural)]
pub enum Error {
    /// The identity named as owner does not own the token.
    NotOwner,
    /// No live ownership record exists for the token.
    NotNFT,
    /// The caller failed every authorization path.
    NotAuthorized,
    /// An enumeration position lies past the live range.
    OutOfBounds,
}

impl Error {
    /// The number by which a host reports the error.
    pub fn code(&self) -> (c: u32)
        ensures
            c == match *self {
                Error::NotOwner => 0u32,
                Error::NotNFT => 1u32,
                Error::NotAuthorized => 2u32,
                Error::OutOfBounds => 4u32,
            },
    {
        match self {
            Error::NotOwner => 0,
            Error::NotNFT => 1,
            Error::NotAuthorized => 2,
            Error::OutOfBounds => 4,
        }
    }
}

/// Why the pixel collection rejected a mint.
#[derive(Clone, Copy, Debug, PartialEq, Eq, Structural)]
pub enum MillionError {
    /// Every token of the collection has been handed out.
    Exhausted,
}

impl MillionError {
    /// The number by which a host reports the error.
    pub fn code(&self) -> (c: u32)
        ensures
            c == 1,
    {
        1
    }
}

/// The kinds of event a host may publish for a ledger operation.
#[derive(Clone, Copy, Debug, PartialEq, Eq, Structural)]
pub enum Event {
    Mint,
    Transfer,
    Approve,
    Burn,
}

impl Event {
    /// The topic under which an event of this kind is published.
    pub open spec fn topic(&self) -> Seq<char> {
        match *self {
            Event::Mint => "Mint"@,
            Event::Transfer => "Transfer"@,
            Event::Approve => "Approve"@,
            Event::Burn => "Burn"@,
        }
    }

    /// The topic under which an event of this kind is published.
    pub fn name(&self) -> (s: &'static str)
        ensures
            s@ == self.topic(),
    {
        match self {
            Event::Mint => "Mint",
            Event::Transfer => "Transfer",
            Event::Approve => "Approve",
            Event::Burn => "Burn",
        }
    }
}

} // verus!
