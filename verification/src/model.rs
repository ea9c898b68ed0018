//! The ledger as a mathematical object: its state, the effect of each
//! operation on that state, and the invariants that every operation keeps.
//!
//! The executable ledger is described entirely in these terms: each of its
//! operations is proved to take the state to exactly the state given here.

use vstd::prelude::*;
use crate::gate::{owner_authority, transfer_authority};
use crate::identity::Identity;
use crate::index::{rearranges, without};
use crate::keys::Error;

verus! {

/// A single approval: who may move the token, and the horizon after which
/// the approval is no longer honoured.
#[derive(Clone, Copy, Debug, PartialEq, Eq, Structural)]
pub struct Approval {
    pub who: Identity,
    pub horizon: u32,
}

/// One request to a ledger.
pub enum Operation {
    Mint { to: Identity, token: u32 },
    Transfer { spender: Identity, from: Identity, to: Identity, token: u32 },
    Burn { caller: Identity, token: u32 },
    Approve { caller: Identity, who: Option<Identity>, token: u32, horizon: u32 },
    SetApprovalForAll {
        caller: Identity,
        owner: Identity,
        operator: Identity,
        approved: bool,
        horizon: u32,
    },
    AdvanceTo { now: u32 },
}

/// The whole state of a ledger.
pub struct LedgerView {
    /// Whether the enumeration index is maintained.
    pub enumerable: bool,
    /// The administrator named when the ledger was set up.
    pub admin: Identity,
    /// The collection's name.
    pub name: Seq<char>,
    /// The collection's symbol.
    pub symbol: Seq<char>,
    /// The locator recorded for a token, where one was recorded.
    pub uris: Map<u32, Seq<char>>,
    /// The owner of each live token.
    pub owners: Map<u32, Identity>,
    /// The balance counter of every identity.
    pub balances: Map<Identity, nat>,
    /// The enumeration of all live tokens.
    pub tokens: Seq<u32>,
    /// The enumeration of the tokens of every identity.
    pub owned: Map<Identity, Seq<u32>>,
    /// The single approval recorded for a token, lapsed or not.
    pub approved: Map<u32, Approval>,
    /// The horizon of the blanket approval recorded for an owner and an
    /// operator, lapsed or not.
    pub operators: Map<(Identity, Identity), u32>,
    /// The present, on the scale on which horizons are given.
    pub now: u32,
    /// How many tokens were ever minted.
    pub minted: nat,
    /// How many tokens were ever burned.
    pub burned: nat,
}

impl LedgerView {
    /// A ledger that holds no token and no approval.
    pub open spec fn initial(
        admin: Identity,
        name: Seq<char>,
        symbol: Seq<char>,
        enumerable: bool,
    ) -> LedgerView {
        LedgerView {
            enumerable,
            admin,
            name,
            symbol,
            uris: Map::empty(),
            owners: Map::empty(),
            balances: Map::total(|o: Identity| 0nat),
            tokens: Seq::empty(),
            owned: Map::total(|o: Identity| Seq::<u32>::empty()),
            approved: Map::empty(),
            operators: Map::empty(),
            now: 0,
            minted: 0,
            burned: 0,
        }
    }

    /// The owner of a token; nothing for a token never minted or burned since.
    pub open spec fn owner_of(self, token: u32) -> Option<Identity> {
        if self.owners.contains_key(token) {
            Some(self.owners[token])
        } else {
            None
        }
    }

    /// Whether `owner` owns `token`.
    pub open spec fn owns(self, owner: Identity, token: u32) -> bool {
        self.owners.contains_key(token) && self.owners[token] == owner
    }

    /// The tokens that `owner` owns.
    pub open spec fn holdings(self, owner: Identity) -> Set<u32> {
        Set::new(|t: u32| self.owns(owner, t))
    }

    /// The number of live tokens.
    pub open spec fn supply(self) -> nat {
        self.owners.dom().len()
    }

    /// The identity that holds the live single approval of a token.
    pub open spec fn approved_for(self, token: u32) -> Option<Identity> {
        if self.approved.contains_key(token) && self.approved[token].horizon >= self.now {
            Some(self.approved[token].who)
        } else {
            None
        }
    }

    /// Whether `operator` holds a live blanket approval of `owner`.
    pub open spec fn is_operator(self, owner: Identity, operator: Identity) -> bool {
        self.operators.contains_key((owner, operator)) && self.operators[(owner, operator)]
            >= self.now
    }

    /// Whether `spender` may move `token` out of `from`'s hands.
    pub open spec fn may_transfer(self, spender: Identity, from: Identity, token: u32) -> bool {
        transfer_authority(
            spender,
            from,
            self.approved_for(token),
            self.is_operator(from, spender),
        ) is Some
    }

    /// Whether `caller` may approve, grant blanket approval or burn for `owner`.
    pub open spec fn may_manage(self, caller: Identity, owner: Identity) -> bool {
        owner_authority(caller, owner, self.is_operator(owner, caller)) is Some
    }

    /// The locator of a token: the one recorded, or a fixed text.
    pub open spec fn token_uri(self, token: u32) -> Seq<char> {
        if self.uris.contains_key(token) {
            self.uris[token]
        } else {
            "no uri"@
        }
    }

    /// The token at a position of the enumeration of all tokens.
    pub open spec fn token_by_index(self, position: u32) -> Result<u32, Error> {
        if position < self.tokens.len() {
            Ok(self.tokens[position as int])
        } else {
            Err(Error::OutOfBounds)
        }
    }

    /// The token at a position of the enumeration of an owner's tokens.
    pub open spec fn token_of_owner_by_index(self, owner: Identity, position: u32) -> Result<
        u32,
        Error,
    > {
        if position < self.owned[owner].len() {
            Ok(self.owned[owner][position as int])
        } else {
            Err(Error::OutOfBounds)
        }
    }

    /// The state after the present has moved to `now`. The present never
    /// moves backwards.
    pub open spec fn advance_to(self, now: u32) -> LedgerView {
        LedgerView { now: if now > self.now { now } else { self.now }, ..self }
    }

    /// The state after a locator was recorded for a token.
    pub open spec fn set_token_uri(self, token: u32, uri: Seq<char>) -> LedgerView {
        LedgerView { uris: self.uris.insert(token, uri), ..self }
    }

    /// The state after `token` was minted to `to`: unchanged if the token is
    /// live already.
    pub open spec fn mint(self, to: Identity, token: u32) -> LedgerView {
        if self.owners.contains_key(token) {
            self
        } else {
            LedgerView {
                owners: self.owners.insert(token, to),
                balances: self.balances.insert(to, self.balances[to] + 1),
                tokens: if self.enumerable {
                    self.tokens.push(token)
                } else {
                    self.tokens
                },
                owned: if self.enumerable {
                    self.owned.insert(to, self.owned[to].push(token))
                } else {
                    self.owned
                },
                minted: self.minted + 1,
                ..self
            }
        }
    }

    /// Why a transfer is rejected, if it is. Authorization is judged against
    /// `from` first; then the token must be live; then `from` must own it.
    pub open spec fn transfer_error(self, spender: Identity, from: Identity, token: u32) -> Option<
        Error,
    > {
        if !self.may_transfer(spender, from, token) {
            Some(Error::NotAuthorized)
        } else if !self.owners.contains_key(token) {
            Some(Error::NotNFT)
        } else if self.owners[token] != from {
            Some(Error::NotOwner)
        } else {
            None
        }
    }

    /// The state after `token` passed from `from` to `to`. The single approval
    /// of the token is gone. The enumeration of all tokens is untouched.
    pub open spec fn moved(self, from: Identity, to: Identity, token: u32) -> LedgerView {
        if from == to {
            LedgerView { approved: self.approved.remove(token), ..self }
        } else {
            LedgerView {
                owners: self.owners.insert(token, to),
                balances: self.balances.insert(from, (self.balances[from] - 1) as nat).insert(
                    to,
                    self.balances[to] + 1,
                ),
                owned: if self.enumerable {
                    self.owned.insert(from, without(self.owned[from], token)).insert(
                        to,
                        self.owned[to].push(token),
                    )
                } else {
                    self.owned
                },
                approved: self.approved.remove(token),
                ..self
            }
        }
    }

    /// The outcome of a transfer requested by `spender`.
    pub open spec fn transfer_from(
        self,
        spender: Identity,
        from: Identity,
        to: Identity,
        token: u32,
    ) -> Result<LedgerView, Error> {
        match self.transfer_error(spender, from, token) {
            Some(e) => Err(e),
            None => Ok(self.moved(from, to, token)),
        }
    }

    /// Why `caller` may not act on `token` as its owner or the owner's
    /// operator, if it may not. Whether the token is live is judged first.
    pub open spec fn manage_error(self, caller: Identity, token: u32) -> Option<Error> {
        if !self.owners.contains_key(token) {
            Some(Error::NotNFT)
        } else if !self.may_manage(caller, self.owners[token]) {
            Some(Error::NotAuthorized)
        } else {
            None
        }
    }

    /// The state after the live token `token` was destroyed.
    pub open spec fn destroyed(self, token: u32) -> LedgerView {
        let owner = self.owners[token];
        LedgerView {
            owners: self.owners.remove(token),
            balances: self.balances.insert(owner, (self.balances[owner] - 1) as nat),
            tokens: if self.enumerable {
                without(self.tokens, token)
            } else {
                self.tokens
            },
            owned: if self.enumerable {
                self.owned.insert(owner, without(self.owned[owner], token))
            } else {
                self.owned
            },
            approved: self.approved.remove(token),
            burned: self.burned + 1,
            ..self
        }
    }

    /// The outcome of a burn requested by `caller`.
    pub open spec fn burn(self, caller: Identity, token: u32) -> Result<LedgerView, Error> {
        match self.manage_error(caller, token) {
            Some(e) => Err(e),
            None => Ok(self.destroyed(token)),
        }
    }

    /// The outcome of `caller` setting or, with nothing to approve, clearing
    /// the single approval of `token`. The horizon is taken as given, whether
    /// or not it lies in the past.
    pub open spec fn approve(
        self,
        caller: Identity,
        approved: Option<Identity>,
        token: u32,
        horizon: u32,
    ) -> Result<LedgerView, Error> {
        match self.manage_error(caller, token) {
            Some(e) => Err(e),
            None => Ok(
                LedgerView {
                    approved: match approved {
                        Some(who) => self.approved.insert(token, Approval { who, horizon }),
                        None => self.approved.remove(token),
                    },
                    ..self
                },
            ),
        }
    }

    /// The outcome of `caller` granting `operator` blanket approval over the
    /// tokens of `owner`, or withdrawing it. A withdrawn approval is removed
    /// outright.
    pub open spec fn set_approval_for_all(
        self,
        caller: Identity,
        owner: Identity,
        operator: Identity,
        approved: bool,
        horizon: u32,
    ) -> Result<LedgerView, Error> {
        if !self.may_manage(caller, owner) {
            Err(Error::NotAuthorized)
        } else {
            Ok(
                LedgerView {
                    operators: if approved {
                        self.operators.insert((owner, operator), horizon)
                    } else {
                        self.operators.remove((owner, operator))
                    },
                    ..self
                },
            )
        }
    }

    /// The state after the tokens of `owner` were put in the order given, if
    /// `order` lists tokens of `owner`'s enumeration, each once, and as many
    /// as the enumeration holds.
    pub open spec fn arrange_owned(self, owner: Identity, order: Seq<u32>) -> Option<LedgerView> {
        if rearranges(order, self.owned[owner]) {
            Some(LedgerView { owned: self.owned.insert(owner, order), ..self })
        } else {
            None
        }
    }

    /// The state that a request leaves behind: the state it asks for where
    /// it is granted, the state as it was where it is rejected.
    pub open spec fn apply(self, op: Operation) -> LedgerView {
        match op {
            Operation::Mint { to, token } => self.mint(to, token),
            Operation::Transfer { spender, from, to, token } => match self.transfer_from(
                spender,
                from,
                to,
                token,
            ) {
                Ok(v) => v,
                Err(_) => self,
            },
            Operation::Burn { caller, token } => match self.burn(caller, token) {
                Ok(v) => v,
                Err(_) => self,
            },
            Operation::Approve { caller, who, token, horizon } => match self.approve(
                caller,
                who,
                token,
                horizon,
            ) {
                Ok(v) => v,
                Err(_) => self,
            },
            Operation::SetApprovalForAll {
                caller,
                owner,
                operator,
                approved,
                horizon,
            } => match self.set_approval_for_all(caller, owner, operator, approved, horizon) {
                Ok(v) => v,
                Err(_) => self,
            },
            Operation::AdvanceTo { now } => self.advance_to(now),
        }
    }

    /// The state that a sequence of requests leaves behind.
    pub open spec fn run(self, ops: Seq<Operation>) -> LedgerView
        decreases ops.len(),
    {
        if ops.len() == 0 {
            self
        } else {
            self.run(ops.drop_last()).apply(ops.last())
        }
    }

    /// The live tokens whose owner is one of `ids`.
    pub open spec fn held_by(self, ids: Seq<Identity>) -> Set<u32> {
        Set::new(|t: u32| self.owners.contains_key(t) && ids.contains(self.owners[t]))
    }

    /// The balances of `ids` added up.
    pub open spec fn sum_of_balances(self, ids: Seq<Identity>) -> nat
        decreases ids.len(),
    {
        if ids.len() == 0 {
            0
        } else {
            self.sum_of_balances(ids.drop_last()) + self.balances[ids.last()]
        }
    }

    /// What holds of the ownership records and balance counters of every
    /// ledger: the live tokens are finitely many, their number is the number
    /// minted less the number burned, and each identity's balance counts the
    /// tokens it owns.
    pub open spec fn ownership_consistent(self) -> bool {
        &&& self.owners.dom().finite()
        &&& self.supply() + self.burned == self.minted
        &&& self.balances.dom() == Set::<Identity>::full()
        &&& self.owned.dom() == Set::<Identity>::full()
        &&& forall|o: Identity|
            #![trigger self.balances[o]]
            #![trigger self.holdings(o)]
            self.balances[o] == self.holdings(o).len()
    }

    /// What holds of the enumeration: where it is maintained, the list of all
    /// tokens holds each live token once and nothing else, and the list of
    /// each identity holds each token it owns once and nothing else; where it
    /// is not, every list is empty.
    pub open spec fn enumeration_consistent(self) -> bool {
        if self.enumerable {
            &&& self.tokens.no_duplicates()
            &&& forall|t: u32| #[trigger] self.tokens.contains(t) <==> self.owners.contains_key(t)
            &&& forall|o: Identity| #[trigger] self.owned[o].no_duplicates()
            &&& forall|o: Identity, t: u32| #[trigger]
                self.owned[o].contains(t) <==> self.owns(o, t)
        } else {
            &&& self.tokens == Seq::<u32>::empty()
            &&& forall|o: Identity| #[trigger] self.owned[o] == Seq::<u32>::empty()
        }
    }

    /// Only live tokens carry a single approval.
    pub open spec fn approvals_consistent(self) -> bool {
        forall|t: u32| #[trigger] self.approved.contains_key(t) ==> self.owners.contains_key(t)
    }

    /// What holds of every ledger, whatever was done to it.
    pub open spec fn consistent(self) -> bool {
        &&& self.ownership_consistent()
        &&& self.enumeration_consistent()
        &&& self.approvals_consistent()
    }
}

} // verus!
