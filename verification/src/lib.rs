//! A non-fungible-token ownership ledger.
//!
//! The ledger records which identity owns which token, how many tokens each
//! identity holds, who may move a token on another's behalf, and a dense
//! enumeration of the live tokens, globally and per owner.

pub mod collection;
pub mod gate;
pub mod hex;
pub mod holders;
pub mod identity;
pub mod index;
pub mod keys;
pub mod laws;
pub mod ledger;
pub mod million;
pub mod model;
pub mod registry;

pub use collection::MyNFTCollection;
pub use gate::Authority;
pub use identity::Identity;
pub use index::TokenIndex;
pub use keys::{
    Admin, DataKey, DataKeyEnumerable, DatakeyMetadata, Error, Event, MillionDataKey,
    MillionError, Tier,
};
pub use ledger::ERC721Contract;
pub use million::{Million, MAX_SUPPLY};
pub use model::{Approval, LedgerView, Operation};
