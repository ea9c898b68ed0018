//! The pixel collection: a ledger whose tokens are handed out in order, one
//! per paid mint, until the collection is exhausted.

use vstd::prelude::*;
use vstd::string::*;
use crate::hex::{hex_label, push_hex_label};
use crate::identity::Identity;
use crate::keys::{Error, MillionError};
use crate::laws::{lemma_mint_supply, lemma_same_tokens};
use crate::ledger::ERC721Contract;
use crate::model::{LedgerView, Operation};

verus! {

/// The highest token id that the collection hands out.
pub const MAX_SUPPLY: u32 = 0xfff;

/// The locator of a pixel: its id in hexadecimal as a host name.
pub open spec fn pixel_uri(token: u32) -> Seq<char> {
    "https://"@ + hex_label(token as nat) + ".millionlumenhomepage.art/.well-known/erc721.json"@
}

/// The state of the pixel collection.
pub struct MillionView {
    /// The ledger of the collection's tokens.
    pub ledger: LedgerView,
    /// The id that the next mint hands out.
    pub next_id: u32,
    /// The asset in which a mint is paid.
    pub asset: Identity,
    /// The price of one mint.
    pub price: i128,
}

impl MillionView {
    /// A collection of which nothing has been handed out.
    pub open spec fn initial(admin: Identity, asset: Identity, price: i128) -> MillionView {
        MillionView {
            ledger: LedgerView::initial(admin, "Pixel"@, "PIX"@, false),
            next_id: 0,
            asset,
            price,
        }
    }

    /// The outcome of a mint to `to`: the next id is handed out, unless all
    /// ids up to the highest have been.
    pub open spec fn mint(self, to: Identity) -> Result<MillionView, MillionError> {
        if self.next_id > MAX_SUPPLY {
            Err(MillionError::Exhausted)
        } else {
            Ok(
                MillionView {
                    ledger: self.ledger.mint(to, self.next_id),
                    next_id: (self.next_id + 1) as u32,
                    ..self
                },
            )
        }
    }

    /// The ids handed out are the live tokens, and they are as many as the
    /// next id says.
    pub open spec fn consistent(self) -> bool {
        &&& self.ledger.consistent()
        &&& self.next_id <= MAX_SUPPLY + 1
        &&& self.ledger.supply() == self.next_id
        &&& forall|t: u32| #[trigger] self.ledger.owners.contains_key(t) <==> t < self.next_id
    }
}

/// The pixel collection.
pub struct Million {
    ledger: ERC721Contract,
    next_id: u32,
    asset: Identity,
    price: i128,
}

impl Million {
    /// The state of the collection.
    pub closed spec fn view(&self) -> MillionView {
        MillionView {
            ledger: self.ledger@,
            next_id: self.next_id,
            asset: self.asset,
            price: self.price,
        }
    }

    /// The ledger is in order and the collection's state is consistent.
    pub closed spec fn wf(&self) -> bool {
        &&& self.ledger.wf()
        &&& self@.consistent()
    }

    /// The state of a collection in order is consistent.
    pub proof fn lemma_consistent(&self)
        requires
            self.wf(),
        ensures
            self@.consistent(),
    {
    }

    /// Sets up the collection with its administrator, the asset in which
    /// mints are paid, and the price of a mint.
    pub fn initialize(admin: Identity, asset: Identity, price: i128) -> (million: Million)
        ensures
            million.wf(),
            million@ == MillionView::initial(admin, asset, price),
    {
        let ledger = ERC721Contract::initialize(
            admin,
            String::from_str("Pixel"),
            String::from_str("PIX"),
            false,
        );
        proof {
            ledger.lemma_consistent();
            assert(ledger@.owners.dom() =~= Set::<u32>::empty());
        }
        Million { ledger, next_id: 0, asset, price }
    }

    /// The asset in which a mint is paid.
    pub fn asset(&self) -> (asset: Identity)
        ensures
            asset == self@.asset,
    {
        self.asset
    }

    /// The price of one mint.
    pub fn price(&self) -> (price: i128)
        ensures
            price == self@.price,
    {
        self.price
    }

    /// Hands the next token id out to `to`. Once every id up to the highest
    /// has been handed out the collection is exhausted and nothing changes.
    /// Taking payment is the host's part.
    pub fn mint(&mut self, to: Identity) -> (r: Result<(), MillionError>)
        requires
            old(self).wf(),
        ensures
            final(self).wf(),
            match old(self)@.mint(to) {
                Ok(v) => r is Ok && final(self)@ == v,
                Err(e) => r == Err::<(), MillionError>(e) && final(self)@ == old(self)@,
            },
    {
        let token_id: u32 = self.next_id;
        if token_id > MAX_SUPPLY {
            return Err(MillionError::Exhausted);
        }
        proof {
            self.ledger.lemma_consistent();
            lemma_mint_supply(self.ledger@, to, token_id);
        }
        self.next_id = token_id + 1;
        self.ledger.mint(to, token_id);
        proof {
            self.ledger.lemma_consistent();
        }
        Ok(())
    }

    /// The number of tokens that `owner` holds.
    pub fn balance_of(&self, owner: Identity) -> (n: u32)
        requires
            self.wf(),
        ensures
            n == self@.ledger.balances[owner],
    {
        self.ledger.balance_of(owner)
    }

    /// Passes a token on, as the ledger does.
    pub fn transfer_from(&mut self, spender: Identity, from: Identity, to: Identity, token_id: u32) -> (r:
        Result<(), Error>)
        requires
            old(self).wf(),
        ensures
            final(self).wf(),
            match old(self)@.ledger.transfer_from(spender, from, to, token_id) {
                Ok(v) => r is Ok && final(self)@ == (MillionView { ledger: v, ..old(self)@ }),
                Err(e) => r == Err::<(), Error>(e) && final(self)@ == old(self)@,
            },
    {
        proof {
            lemma_same_tokens(self.ledger@, Operation::Transfer { spender, from, to, token: token_id });
        }
        let r = self.ledger.transfer_from(spender, from, to, token_id);
        proof {
            self.ledger.lemma_consistent();
        }
        r
    }

    /// Sets or clears the single approval of a token, as the ledger does.
    pub fn approve(
        &mut self,
        caller: Identity,
        operator: Option<Identity>,
        token_id: u32,
        expiration_ledger: u32,
    ) -> (r: Result<(), Error>)
        requires
            old(self).wf(),
        ensures
            final(self).wf(),
            match old(self)@.ledger.approve(caller, operator, token_id, expiration_ledger) {
                Ok(v) => r is Ok && final(self)@ == (MillionView { ledger: v, ..old(self)@ }),
                Err(e) => r == Err::<(), Error>(e) && final(self)@ == old(self)@,
            },
    {
        proof {
            lemma_same_tokens(
                self.ledger@,
                Operation::Approve {
                    caller,
                    who: operator,
                    token: token_id,
                    horizon: expiration_ledger,
                },
            );
        }
        let r = self.ledger.approve(caller, operator, token_id, expiration_ledger);
        proof {
            self.ledger.lemma_consistent();
        }
        r
    }

    /// Grants or withdraws a blanket approval, as the ledger does.
    pub fn set_approval_for_all(
        &mut self,
        caller: Identity,
        owner: Identity,
        operator: Identity,
        approved: bool,
        expiration_ledger: u32,
    ) -> (r: Result<(), Error>)
        requires
            old(self).wf(),
        ensures
            final(self).wf(),
            match old(self)@.ledger.set_approval_for_all(
                caller,
                owner,
                operator,
                approved,
                expiration_ledger,
            ) {
                Ok(v) => r is Ok && final(self)@ == (MillionView { ledger: v, ..old(self)@ }),
                Err(e) => r == Err::<(), Error>(e) && final(self)@ == old(self)@,
            },
    {
        proof {
            lemma_same_tokens(
                self.ledger@,
                Operation::SetApprovalForAll {
                    caller,
                    owner,
                    operator,
                    approved,
                    horizon: expiration_ledger,
                },
            );
        }
        let r = self.ledger.set_approval_for_all(
            caller,
            owner,
            operator,
            approved,
            expiration_ledger,
        );
        proof {
            self.ledger.lemma_consistent();
        }
        r
    }

    /// Moves the present to `now`, unless that lies in the past.
    pub fn advance_to(&mut self, now: u32)
        requires
            old(self).wf(),
        ensures
            final(self).wf(),
            final(self)@ == (MillionView { ledger: old(self)@.ledger.advance_to(now), ..old(self)@ }),
    {
        proof {
            lemma_same_tokens(self.ledger@, Operation::AdvanceTo { now });
        }
        self.ledger.advance_to(now);
        proof {
            self.ledger.lemma_consistent();
        }
    }

    /// The identity that holds the live single approval of a token, if any.
    pub fn get_approved(&self, token_id: u32) -> (who: Option<Identity>)
        ensures
            who == self@.ledger.approved_for(token_id),
    {
        self.ledger.get_approved(token_id)
    }

    /// Whether `operator` holds a live blanket approval of `owner`.
    pub fn is_approval_for_all(&self, owner: Identity, operator: Identity) -> (live: bool)
        requires
            self.wf(),
        ensures
            live == self@.ledger.is_operator(owner, operator),
    {
        self.ledger.is_approval_for_all(owner, operator)
    }

    /// The collection's name.
    pub fn name(&self) -> (name: String)
        ensures
            name@ == self@.ledger.name,
    {
        self.ledger.name()
    }

    /// The collection's symbol.
    pub fn symbol(&self) -> (symbol: String)
        ensures
            symbol@ == self@.ledger.symbol,
    {
        self.ledger.symbol()
    }

    /// The locator of a pixel, whether or not it has been handed out.
    pub fn token_uri(&self, token_id: u32) -> (uri: String)
        ensures
            uri@ == pixel_uri(token_id),
    {
        let mut uri = String::from_str("https://");
        push_hex_label(&mut uri, token_id);
        uri.append(".millionlumenhomepage.art/.well-known/erc721.json");
        uri
    }

    /// The number of tokens handed out, which is the number of live tokens.
    pub fn total_supply(&self) -> (n: u32)
        requires
            self.wf(),
        ensures
            n == self@.next_id,
            n == self@.ledger.supply(),
    {
        self.next_id
    }
}

} // verus!
