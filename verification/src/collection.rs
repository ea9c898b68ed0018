//! A plain collection: a ledger whose tokens are handed out in order and all
//! carry the same locator.

use vstd::prelude::*;
use vstd::string::*;
use crate::identity::Identity;
use crate::keys::Error;
use crate::laws::{lemma_mint_supply, lemma_same_tokens};
use crate::ledger::ERC721Contract;
use crate::model::{LedgerView, Operation};

verus! {

/// The state of a plain collection.
pub struct CollectionView {
    /// The ledger of the collection's tokens.
    pub ledger: LedgerView,
    /// The id that the next mint hands out.
    pub next_id: u32,
    /// The locator that every token is given.
    pub base_uri: Seq<char>,
}

impl CollectionView {
    /// A collection of which nothing has been handed out.
    pub open spec fn initial(admin: Identity, uri: Seq<char>) -> CollectionView {
        CollectionView {
            ledger: LedgerView::initial(admin, "Non-Fungible Token"@, "NFT"@, false),
            next_id: 0,
            base_uri: uri,
        }
    }

    /// The state after a mint to `to`: the next id is handed out and given
    /// the collection's locator.
    pub open spec fn mint(self, to: Identity) -> CollectionView {
        CollectionView {
            ledger: self.ledger.set_token_uri(self.next_id, self.base_uri).mint(to, self.next_id),
            next_id: (self.next_id + 1) as u32,
            ..self
        }
    }

    /// The ids handed out are the live tokens, and they are as many as the
    /// next id says.
    pub open spec fn consistent(self) -> bool {
        &&& self.ledger.consistent()
        &&& self.ledger.supply() == self.next_id
        &&& forall|t: u32| #[trigger] self.ledger.owners.contains_key(t) <==> t < self.next_id
    }
}

/// A plain collection with descriptive metadata and nothing else.
pub struct MyNFTCollection {
    ledger: ERC721Contract,
    next_id: u32,
    base_uri: String,
}

impl MyNFTCollection {
    /// The state of the collection.
    pub closed spec fn view(&self) -> CollectionView {
        CollectionView { ledger: self.ledger@, next_id: self.next_id, base_uri: self.base_uri@ }
    }

    /// The ledger is in order and the collection's state is consistent.
    pub closed spec fn wf(&self) -> bool {
        &&& self.ledger.wf()
        &&& self@.consistent()
    }

    /// The state of a collection in order is consistent.
    pub proof fn lemma_consistent(&self)
        requires
            self.wf(),
        ensures
            self@.consistent(),
    {
    }

    /// Sets up the collection with its administrator and the locator that
    /// every token is given.
    pub fn initialize(admin: Identity, uri: String) -> (collection: MyNFTCollection)
        ensures
            collection.wf(),
            collection@ == CollectionView::initial(admin, uri@),
    {
        let ledger = ERC721Contract::initialize(
            admin,
            String::from_str("Non-Fungible Token"),
            String::from_str("NFT"),
            false,
        );
        proof {
            ledger.lemma_consistent();
            assert(ledger@.owners.dom() =~= Set::<u32>::empty());
        }
        MyNFTCollection { ledger, next_id: 0, base_uri: uri }
    }

    /// Hands the next token id out to `to` and gives it the collection's
    /// locator. That `to` agrees is for the host to establish. The next id
    /// must not be the last that the width of an id allows.
    pub fn mint(&mut self, to: Identity)
        requires
            old(self).wf(),
            old(self)@.next_id < u32::MAX,
        ensures
            final(self).wf(),
            final(self)@ == old(self)@.mint(to),
    {
        let token_id: u32 = self.next_id;
        self.next_id = token_id + 1;
        self.ledger.set_token_uri(token_id, self.base_uri.clone());
        proof {
            self.ledger.lemma_consistent();
            lemma_mint_supply(self.ledger@, to, token_id);
        }
        self.ledger.mint(to, token_id);
        proof {
            self.ledger.lemma_consistent();
        }
    }

    /// The number of tokens handed out, which is the id that the next mint
    /// hands out.
    pub fn minted(&self) -> (n: u32)
        requires
            self.wf(),
        ensures
            n == self@.next_id,
            n == self@.ledger.supply(),
    {
        self.next_id
    }

    /// The number of tokens that `owner` holds.
    pub fn balance_of(&self, owner: Identity) -> (n: u32)
        requires
            self.wf(),
        ensures
            n == self@.ledger.balances[owner],
    {
        self.ledger.balance_of(owner)
    }

    /// Passes a token on, as the ledger does.
    pub fn transfer_from(&mut self, spender: Identity, from: Identity, to: Identity, token_id: u32) -> (r:
        Result<(), Error>)
        requires
            old(self).wf(),
        ensures
            final(self).wf(),
            match old(self)@.ledger.transfer_from(spender, from, to, token_id) {
                Ok(v) => r is Ok && final(self)@ == (CollectionView { ledger: v, ..old(self)@ }),
                Err(e) => r == Err::<(), Error>(e) && final(self)@ == old(self)@,
            },
    {
        proof {
            lemma_same_tokens(self.ledger@, Operation::Transfer { spender, from, to, token: token_id });
        }
        let r = self.ledger.transfer_from(spender, from, to, token_id);
        proof {
            self.ledger.lemma_consistent();
        }
        r
    }

    /// Sets or clears the single approval of a token, as the ledger does.
    pub fn approve(
        &mut self,
        caller: Identity,
        operator: Option<Identity>,
        token_id: u32,
        expiration_ledger: u32,
    ) -> (r: Result<(), Error>)
        requires
            old(self).wf(),
        ensures
            final(self).wf(),
            match old(self)@.ledger.approve(caller, operator, token_id, expiration_ledger) {
                Ok(v) => r is Ok && final(self)@ == (CollectionView { ledger: v, ..old(self)@ }),
                Err(e) => r == Err::<(), Error>(e) && final(self)@ == old(self)@,
            },
    {
        proof {
            lemma_same_tokens(
                self.ledger@,
                Operation::Approve {
                    caller,
                    who: operator,
                    token: token_id,
                    horizon: expiration_ledger,
                },
            );
        }
        let r = self.ledger.approve(caller, operator, token_id, expiration_ledger);
        proof {
            self.ledger.lemma_consistent();
        }
        r
    }

    /// Grants or withdraws a blanket approval, as the ledger does.
    pub fn set_approval_for_all(
        &mut self,
        caller: Identity,
        owner: Identity,
        operator: Identity,
        approved: bool,
        expiration_ledger: u32,
    ) -> (r: Result<(), Error>)
        requires
            old(self).wf(),
        ensures
            final(self).wf(),
            match old(self)@.ledger.set_approval_for_all(
                caller,
                owner,
                operator,
                approved,
                expiration_ledger,
            ) {
                Ok(v) => r is Ok && final(self)@ == (CollectionView { ledger: v, ..old(self)@ }),
                Err(e) => r == Err::<(), Error>(e) && final(self)@ == old(self)@,
            },
    {
        proof {
            lemma_same_tokens(
                self.ledger@,
                Operation::SetApprovalForAll {
                    caller,
                    owner,
                    operator,
                    approved,
                    horizon: expiration_ledger,
                },
            );
        }
        let r = self.ledger.set_approval_for_all(
            caller,
            owner,
            operator,
            approved,
            expiration_ledger,
        );
        proof {
            self.ledger.lemma_consistent();
        }
        r
    }

    /// Moves the present to `now`, unless that lies in the past.
    pub fn advance_to(&mut self, now: u32)
        requires
            old(self).wf(),
        ensures
            final(self).wf(),
            final(self)@ == (CollectionView {
                ledger: old(self)@.ledger.advance_to(now),
                ..old(self)@
            }),
    {
        proof {
            lemma_same_tokens(self.ledger@, Operation::AdvanceTo { now });
        }
        self.ledger.advance_to(now);
        proof {
            self.ledger.lemma_consistent();
        }
    }

    /// The identity that holds the live single approval of a token, if any.
    pub fn get_approved(&self, token_id: u32) -> (who: Option<Identity>)
        ensures
            who == self@.ledger.approved_for(token_id),
    {
        self.ledger.get_approved(token_id)
    }

    /// Whether `operator` holds a live blanket approval of `owner`.
    pub fn is_approval_for_all(&self, owner: Identity, operator: Identity) -> (live: bool)
        requires
            self.wf(),
        ensures
            live == self@.ledger.is_operator(owner, operator),
    {
        self.ledger.is_approval_for_all(owner, operator)
    }

    /// The collection's name.
    pub fn name(&self) -> (name: String)
        ensures
            name@ == self@.ledger.name,
    {
        self.ledger.name()
    }

    /// The collection's symbol.
    pub fn symbol(&self) -> (symbol: String)
        ensures
            symbol@ == self@.ledger.symbol,
    {
        self.ledger.symbol()
    }

    /// The locator of a token: the collection's locator for a token handed
    /// out, a fixed text for any other.
    pub fn token_uri(&self, token_id: u32) -> (uri: String)
        ensures
            uri@ == self@.ledger.token_uri(token_id),
    {
        self.ledger.token_uri(token_id)
    }
}

} // verus!
