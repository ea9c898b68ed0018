//! The ledger itself: ownership records, balance counters, the enumeration
//! index and the approval registry, kept consistent with one another by
//! every operation.
//!
//! An operation that is rejected changes nothing. The caller named in an
//! operation is taken to be who it says it is: the host establishes that
//! before it calls, and only where the authorization gate finds a path.

use vstd::prelude::*;
use std::collections::HashMap;
use crate::gate::{
    authorize_owner, authorize_transfer, owner_authority, transfer_authority, Authority,
};
use crate::holders::Holders;
use crate::identity::Identity;
use crate::index::{coherent, TokenIndex};
use crate::keys::Error;
use crate::laws::{
    lemma_arrange_owned_consistent, lemma_destroyed_consistent, lemma_enumeration_counts,
    lemma_holdings_bounded, lemma_holdings_of_another, lemma_initial_consistent,
    lemma_mint_consistent, lemma_moved_consistent, lemma_same_ownership,
};
use crate::model::LedgerView;
use crate::registry::ApprovalRegistry;

verus! {

broadcast use vstd::std_specs::hash::group_hash_axioms;

/// A ledger of non-fungible tokens, identified by 32-bit ids.
pub struct ERC721Contract {
    enumerable: bool,
    admin: Identity,
    name: String,
    symbol: String,
    uris: HashMap<u32, String>,
    owners: HashMap<u32, Identity>,
    holders: Holders,
    tokens: TokenIndex,
    registry: ApprovalRegistry,
    minted: Ghost<nat>,
    burned: Ghost<nat>,
}

impl ERC721Contract {
    /// The state of the ledger.
    pub closed spec fn view(&self) -> LedgerView {
        LedgerView {
            enumerable: self.enumerable,
            admin: self.admin,
            name: self.name@,
            symbol: self.symbol@,
            uris: self.uris@.map_values(|s: String| s@),
            owners: self.owners@,
            balances: self.holders.balances(),
            tokens: self.tokens@,
            owned: self.holders.owned(),
            approved: self.registry.approved(),
            operators: self.registry.operators(),
            now: self.registry.now(),
            minted: self.minted@,
            burned: self.burned@,
        }
    }

    /// The parts of the ledger are each in order, its state is consistent,
    /// and the supply fits the width of a balance.
    pub closed spec fn wf(&self) -> bool {
        &&& self.holders.wf()
        &&& self.tokens.wf()
        &&& self.registry.wf()
        &&& self@.consistent()
        &&& self@.supply() <= u32::MAX
    }

    /// The state of a ledger in order is consistent, and its supply fits the
    /// width of a balance.
    pub proof fn lemma_consistent(&self)
        requires
            self.wf(),
        ensures
            self@.consistent(),
            self@.supply() <= u32::MAX,
    {
    }

    /// The position of each live token in the enumeration of all tokens.
    pub closed spec fn positions(&self) -> Map<u32, u32> {
        self.tokens.reverse()
    }

    /// The position of each token of `owner` in the enumeration of the
    /// tokens of `owner`.
    pub closed spec fn positions_of(&self, owner: Identity) -> Map<u32, u32> {
        self.holders.reverse(owner)
    }

    /// Every enumeration agrees with its reverse lookup: the token at a
    /// position is looked up to that position, and a token that is looked up
    /// stands at the position found.
    pub proof fn lemma_indices_coherent(&self, owner: Identity)
        requires
            self.wf(),
        ensures
            coherent(self@.tokens, self.positions()),
            coherent(self@.owned[owner], self.positions_of(owner)),
    {
        self.holders.lemma_coherent(owner);
    }

    /// Sets up a ledger that holds no token, with its administrator and the
    /// collection's name and symbol. Whether the enumeration index is
    /// maintained is decided here, once.
    pub fn initialize(admin: Identity, name: String, symbol: String, enumerable: bool) -> (ledger:
        ERC721Contract)
        ensures
            ledger.wf(),
            ledger@ == LedgerView::initial(admin, name@, symbol@, enumerable),
    {
        let ledger = ERC721Contract {
            enumerable,
            admin,
            name,
            symbol,
            uris: HashMap::new(),
            owners: HashMap::new(),
            holders: Holders::new(),
            tokens: TokenIndex::new(),
            registry: ApprovalRegistry::new(),
            minted: Ghost(0),
            burned: Ghost(0),
        };
        proof {
            lemma_initial_consistent(admin, name@, symbol@, enumerable);
            assert(ledger@.uris =~= Map::<u32, Seq<char>>::empty());
            assert(ledger@ =~= LedgerView::initial(admin, name@, symbol@, enumerable));
            assert(ledger@.owners.dom() =~= Set::<u32>::empty());
        }
        ledger
    }

    /// The administrator.
    pub fn admin(&self) -> (admin: Identity)
        ensures
            admin == self@.admin,
    {
        self.admin
    }

    /// Whether the enumeration index is maintained.
    pub fn is_enumerable(&self) -> (enumerable: bool)
        ensures
            enumerable == self@.enumerable,
    {
        self.enumerable
    }

    /// The number of tokens that `owner` holds: zero for an identity the
    /// ledger has never seen.
    pub fn balance_of(&self, owner: Identity) -> (n: u32)
        requires
            self.wf(),
        ensures
            n == self@.balances[owner],
            n == self@.holdings(owner).len(),
    {
        self.holders.balance(&owner)
    }

    /// The owner of a token; nothing for a token never minted or burned since.
    pub fn owner_of(&self, token_id: u32) -> (owner: Option<Identity>)
        ensures
            owner == self@.owner_of(token_id),
    {
        match self.owners.get(&token_id) {
            Some(o) => Some(*o),
            None => None,
        }
    }

    /// The identity that holds the live single approval of a token, if any.
    pub fn get_approved(&self, token_id: u32) -> (who: Option<Identity>)
        ensures
            who == self@.approved_for(token_id),
    {
        self.registry.get_approved(token_id)
    }

    /// Whether `operator` holds a live blanket approval of `owner`.
    pub fn is_approval_for_all(&self, owner: Identity, operator: Identity) -> (live: bool)
        requires
            self.wf(),
        ensures
            live == self@.is_operator(owner, operator),
    {
        self.registry.is_approval_for_all(&owner, &operator)
    }

    /// The path on which `spender` may move `token_id` out of `from`'s hands,
    /// if there is one.
    pub fn transfer_authority(&self, spender: Identity, from: Identity, token_id: u32) -> (path:
        Option<Authority>)
        requires
            self.wf(),
        ensures
            path == transfer_authority(
                spender,
                from,
                self@.approved_for(token_id),
                self@.is_operator(from, spender),
            ),
            path is Some <==> self@.may_transfer(spender, from, token_id),
    {
        let approved = self.registry.get_approved(token_id);
        let operator = self.registry.is_approval_for_all(&from, &spender);
        authorize_transfer(&spender, &from, approved, operator)
    }

    /// The path on which `caller` may approve, grant blanket approval or burn
    /// for `owner`, if there is one.
    pub fn owner_authority(&self, caller: Identity, owner: Identity) -> (path: Option<Authority>)
        requires
            self.wf(),
        ensures
            path == owner_authority(caller, owner, self@.is_operator(owner, caller)),
            path is Some <==> self@.may_manage(caller, owner),
    {
        let operator = self.registry.is_approval_for_all(&owner, &caller);
        authorize_owner(&caller, &owner, operator)
    }

    /// The number of live tokens. Where the enumeration is maintained, this
    /// is the length of the enumeration of all tokens.
    pub fn total_supply(&self) -> (n: u32)
        requires
            self.wf(),
        ensures
            n == self@.supply(),
            self@.enumerable ==> n == self@.tokens.len(),
    {
        proof {
            if self.enumerable {
                lemma_enumeration_counts(self@);
            }
        }
        self.owners.len() as u32
    }

    /// The token at a position of the enumeration of all tokens. A position
    /// past the end is an error.
    pub fn token_by_index(&self, index: u32) -> (token: Result<u32, Error>)
        ensures
            token == self@.token_by_index(index),
    {
        match self.tokens.get(index) {
            Some(t) => Ok(t),
            None => Err(Error::OutOfBounds),
        }
    }

    /// The token at a position of the enumeration of the tokens of `owner`.
    /// A position past the end is an error.
    pub fn token_of_owner_by_index(&self, owner: Identity, index: u32) -> (token: Result<
        u32,
        Error,
    >)
        requires
            self.wf(),
        ensures
            token == self@.token_of_owner_by_index(owner, index),
    {
        match self.holders.token_at(&owner, index) {
            Some(t) => Ok(t),
            None => Err(Error::OutOfBounds),
        }
    }

    /// The collection's name.
    pub fn name(&self) -> (name: String)
        ensures
            name@ == self@.name,
    {
        self.name.clone()
    }

    /// The collection's symbol.
    pub fn symbol(&self) -> (symbol: String)
        ensures
            symbol@ == self@.symbol,
    {
        self.symbol.clone()
    }

    /// The locator of a token: the one recorded for it, or a fixed text
    /// where none was recorded.
    pub fn token_uri(&self, token_id: u32) -> (uri: String)
        ensures
            uri@ == self@.token_uri(token_id),
    {
        match self.uris.get(&token_id) {
            Some(uri) => uri.clone(),
            None => String::from_str("no uri"),
        }
    }

    /// Records a locator for a token, in place of any earlier one.
    pub fn set_token_uri(&mut self, token_id: u32, uri: String)
        requires
            old(self).wf(),
        ensures
            final(self).wf(),
            final(self)@ == old(self)@.set_token_uri(token_id, uri@),
    {
        self.uris.insert(token_id, uri);
        proof {
            assert(final(self)@.uris =~= old(self)@.uris.insert(token_id, uri@));
            assert(final(self)@ =~= old(self)@.set_token_uri(token_id, uri@));
            lemma_same_ownership(old(self)@, final(self)@);
        }
    }

    /// Moves the present to `now`, unless that lies in the past. Approvals
    /// whose horizon has passed are no longer honoured.
    pub fn advance_to(&mut self, now: u32)
        requires
            old(self).wf(),
        ensures
            final(self).wf(),
            final(self)@ == old(self)@.advance_to(now),
    {
        self.registry.advance_to(now);
        proof {
            assert(final(self)@ =~= old(self)@.advance_to(now));
            lemma_same_ownership(old(self)@, final(self)@);
        }
    }

    /// Puts the tokens of `owner` in the order given, if `order` lists tokens
    /// of `owner`'s enumeration, each once, and as many as the enumeration
    /// holds. Otherwise nothing changes, and the answer is `false`. This is
    /// how a host that keeps the enumeration elsewhere hands it back.
    pub fn arrange_owned(&mut self, owner: Identity, order: &Vec<u32>) -> (done: bool)
        requires
            old(self).wf(),
        ensures
            final(self).wf(),
            match old(self)@.arrange_owned(owner, order@) {
                Some(v) => done && final(self)@ == v,
                None => !done && final(self)@ == old(self)@,
            },
    {
        let ghost v = self@;
        proof {
            lemma_arrange_owned_consistent(v, owner, order@);
        }
        let done = self.holders.arrange(&owner, order);
        proof {
            if done {
                assert(final(self)@ =~= v.arrange_owned(owner, order@)->Some_0);
            } else {
                assert(final(self)@ =~= v);
            }
        }
        done
    }

    /// Mints `token_id` to `to`. Minting a token that is live already does
    /// nothing. Who may mint is for the caller to decide. The supply must
    /// leave room for one more token within the width of a balance.
    pub fn mint(&mut self, to: Identity, token_id: u32)
        requires
            old(self).wf(),
            old(self)@.supply() < u32::MAX,
        ensures
            final(self).wf(),
            final(self)@ == old(self)@.mint(to, token_id),
    {
        if self.owners.contains_key(&token_id) {
            return ;
        }
        let ghost v = self@;
        proof {
            lemma_mint_consistent(v, to, token_id);
            lemma_holdings_bounded(v, to);
            assert(v.balances[to] == v.holdings(to).len());
            if v.enumerable {
                lemma_enumeration_counts(v);
                assert(v.owned[to].len() == v.balances[to]);
                assert(!v.owns(to, token_id));
                assert(!v.owned[to].contains(token_id));
                assert(!v.tokens.contains(token_id));
            } else {
                assert(v.owned[to] == Seq::<u32>::empty());
            }
        }
        self.owners.insert(token_id, to);
        self.holders.credit(&to, token_id, self.enumerable);
        if self.enumerable {
            self.tokens.insert(token_id);
        }
        self.minted = Ghost(self.minted@ + 1);
        proof {
            assert(final(self)@ =~= v.mint(to, token_id));
            assert(final(self)@.owners.dom() =~= v.owners.dom().insert(token_id));
        }
    }

    /// Passes `token_id` from `from` to `to` at the request of `spender`.
    ///
    /// `spender` must be `from` itself, hold the live single approval of the
    /// token, or be a live operator of `from`; the token must be live; and
    /// `from` must own it. The single approval of the token is cleared,
    /// whoever asked. The enumeration of all tokens is untouched.
    pub fn transfer_from(&mut self, spender: Identity, from: Identity, to: Identity, token_id: u32) -> (r:
        Result<(), Error>)
        requires
            old(self).wf(),
        ensures
            final(self).wf(),
            match old(self)@.transfer_from(spender, from, to, token_id) {
                Ok(v) => r is Ok && final(self)@ == v,
                Err(e) => r == Err::<(), Error>(e) && final(self)@ == old(self)@,
            },
    {
        let approved = self.registry.get_approved(token_id);
        let operator = self.registry.is_approval_for_all(&from, &spender);
        match authorize_transfer(&spender, &from, approved, operator) {
            None => {
                return Err(Error::NotAuthorized);
            },
            Some(_) => {},
        }
        let owner: Identity = match self.owners.get(&token_id) {
            Some(o) => *o,
            None => {
                return Err(Error::NotNFT);
            },
        };
        if !owner.same(&from) {
            return Err(Error::NotOwner);
        }
        let ghost v = self@;
        proof {
            lemma_moved_consistent(v, from, to, token_id);
        }
        self.registry.clear_approved(token_id);
        if !from.same(&to) {
            proof {
                lemma_holdings_bounded(v, to);
                lemma_holdings_of_another(v, to, token_id);
                assert(v.balances[to] == v.holdings(to).len());
                assert(v.balances[from] == v.holdings(from).len());
                if v.enumerable {
                    lemma_enumeration_counts(v);
                    assert(v.owned[to].len() == v.balances[to]);
                    assert(v.owns(from, token_id));
                    assert(v.owned[from].contains(token_id));
                    assert(!v.owns(to, token_id));
                    assert(!v.owned[to].contains(token_id));
                } else {
                    assert(v.owned[to] == Seq::<u32>::empty());
                }
            }
            self.owners.insert(token_id, to);
            self.holders.debit(&from, token_id, self.enumerable);
            self.holders.credit(&to, token_id, self.enumerable);
        }
        proof {
            assert(final(self)@ =~= v.moved(from, to, token_id));
            assert(final(self)@.owners.dom() =~= v.owners.dom());
        }
        Ok(())
    }

    /// Sets the single approval of `token_id` to `operator` until
    /// `expiration_ledger`, or clears it where `operator` is nothing.
    ///
    /// The token must be live, which is judged first; `caller` must be its
    /// owner or a live operator of its owner. A horizon in the past is taken
    /// as given: such an approval is recorded and never honoured.
    pub fn approve(
        &mut self,
        caller: Identity,
        operator: Option<Identity>,
        token_id: u32,
        expiration_ledger: u32,
    ) -> (r: Result<(), Error>)
        requires
            old(self).wf(),
        ensures
            final(self).wf(),
            match old(self)@.approve(caller, operator, token_id, expiration_ledger) {
                Ok(v) => r is Ok && final(self)@ == v,
                Err(e) => r == Err::<(), Error>(e) && final(self)@ == old(self)@,
            },
    {
        let owner: Identity = match self.owners.get(&token_id) {
            Some(o) => *o,
            None => {
                return Err(Error::NotNFT);
            },
        };
        let is_operator = self.registry.is_approval_for_all(&owner, &caller);
        match authorize_owner(&caller, &owner, is_operator) {
            None => {
                return Err(Error::NotAuthorized);
            },
            Some(_) => {},
        }
        let ghost v = self@;
        match operator {
            Some(who) => {
                self.registry.set_approved(token_id, who, expiration_ledger);
            },
            None => {
                self.registry.clear_approved(token_id);
            },
        }
        proof {
            let w = v.approve(caller, operator, token_id, expiration_ledger)->Ok_0;
            assert(final(self)@ =~= w);
            lemma_same_ownership(v, w);
        }
        Ok(())
    }

    /// Grants `operator` blanket approval over the tokens of `owner` until
    /// `expiration_ledger`, or withdraws it.
    ///
    /// `caller` must be `owner` or a live operator of `owner`. A withdrawn
    /// approval is removed outright.
    pub fn set_approval_for_all(
        &mut self,
        caller: Identity,
        owner: Identity,
        operator: Identity,
        approved: bool,
        expiration_ledger: u32,
    ) -> (r: Result<(), Error>)
        requires
            old(self).wf(),
        ensures
            final(self).wf(),
            match old(self)@.set_approval_for_all(
                caller,
                owner,
                operator,
                approved,
                expiration_ledger,
            ) {
                Ok(v) => r is Ok && final(self)@ == v,
                Err(e) => r == Err::<(), Error>(e) && final(self)@ == old(self)@,
            },
    {
        let is_operator = self.registry.is_approval_for_all(&owner, &caller);
        match authorize_owner(&caller, &owner, is_operator) {
            None => {
                return Err(Error::NotAuthorized);
            },
            Some(_) => {},
        }
        let ghost v = self@;
        if approved {
            self.registry.grant(owner, operator, expiration_ledger);
        } else {
            self.registry.revoke(&owner, &operator);
        }
        proof {
            let w = v.set_approval_for_all(caller, owner, operator, approved, expiration_ledger)->Ok_0;
            assert(final(self)@ =~= w);
            lemma_same_ownership(v, w);
        }
        Ok(())
    }

    /// Destroys `token_id` at the request of `caller`.
    ///
    /// The token must be live, which is judged first; `caller` must be its
    /// owner or a live operator of its owner: holding the single approval of
    /// the token is not enough. The ownership record and the single approval
    /// go, the owner's balance drops by one, and the token leaves both the
    /// enumeration of all tokens and that of its owner.
    pub fn burn(&mut self, caller: Identity, token_id: u32) -> (r: Result<(), Error>)
        requires
            old(self).wf(),
        ensures
            final(self).wf(),
            match old(self)@.burn(caller, token_id) {
                Ok(v) => r is Ok && final(self)@ == v,
                Err(e) => r == Err::<(), Error>(e) && final(self)@ == old(self)@,
            },
    {
        let owner: Identity = match self.owners.get(&token_id) {
            Some(o) => *o,
            None => {
                return Err(Error::NotNFT);
            },
        };
        let is_operator = self.registry.is_approval_for_all(&owner, &caller);
        match authorize_owner(&caller, &owner, is_operator) {
            None => {
                return Err(Error::NotAuthorized);
            },
            Some(_) => {},
        }
        let ghost v = self@;
        proof {
            lemma_destroyed_consistent(v, token_id);
            if v.enumerable {
                assert(v.owns(owner, token_id));
                assert(v.owned[owner].contains(token_id));
                assert(v.tokens.contains(token_id));
            }
        }
        self.registry.clear_approved(token_id);
        self.owners.remove(&token_id);
        self.holders.debit(&owner, token_id, self.enumerable);
        if self.enumerable {
            self.tokens.remove(token_id);
        }
        self.burned = Ghost(self.burned@ + 1);
        proof {
            assert(final(self)@ =~= v.destroyed(token_id));
            assert(final(self)@.owners.dom() =~= v.owners.dom().remove(token_id));
        }
        Ok(())
    }
}

} // verus!
