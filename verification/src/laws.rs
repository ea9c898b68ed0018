//! What holds of every ledger: the operations keep the invariant, balances
//! add up to the supply, a transfer clears the single approval, positions
//! past the end are refused, and a repeated mint changes nothing.

use vstd::prelude::*;
use vstd::set_lib::*;
use crate::identity::Identity;
use crate::keys::Error;
use crate::index::{lemma_rearranges, lemma_without};
use crate::model::{LedgerView, Operation};

verus! {

/// Appending a token that is not listed to a list without repetitions leaves
/// a list without repetitions that holds the token and what was listed.
pub proof fn lemma_push_fresh(list: Seq<u32>, token: u32)
    requires
        list.no_duplicates(),
        !list.contains(token),
    ensures
        list.push(token).no_duplicates(),
        forall|t: u32| #[trigger] list.push(token).contains(t) <==> list.contains(t) || t == token,
{
    let longer = list.push(token);
    assert forall|t: u32| #[trigger] longer.contains(t) <==> list.contains(t) || t == token by {
        if longer.contains(t) {
            let q = choose|q: int| 0 <= q < longer.len() && longer[q] == t;
            if q < list.len() {
                assert(list[q] == t);
            }
        }
        if list.contains(t) {
            let q = choose|q: int| 0 <= q < list.len() && list[q] == t;
            assert(longer[q] == t);
        }
        if t == token {
            assert(longer[list.len() as int] == t);
        }
    }
}

/// The tokens of one identity are finitely many, and no more than the supply.
pub proof fn lemma_holdings_bounded(v: LedgerView, owner: Identity)
    requires
        v.owners.dom().finite(),
    ensures
        v.holdings(owner).finite(),
        v.holdings(owner).len() <= v.supply(),
{
    assert(v.holdings(owner).subset_of(v.owners.dom()));
    lemma_len_subset(v.holdings(owner), v.owners.dom());
}

/// Where the enumeration is maintained, the list of all tokens is as long as
/// the supply, and the list of each identity is as long as its balance.
pub proof fn lemma_enumeration_counts(v: LedgerView)
    requires
        v.consistent(),
        v.enumerable,
    ensures
        v.tokens.len() == v.supply(),
        forall|o: Identity| #[trigger] v.owned[o].len() == v.balances[o],
{
    v.tokens.unique_seq_to_set();
    assert(v.tokens.to_set() =~= v.owners.dom());
    assert forall|o: Identity| #[trigger] v.owned[o].len() == v.balances[o] by {
        v.owned[o].unique_seq_to_set();
        assert forall|t: u32| v.owned[o].to_set().contains(t) <==> v.holdings(o).contains(t) by {
            assert(v.owned[o].contains(t) <==> v.owns(o, t));
        }
        assert(v.owned[o].to_set() =~= v.holdings(o));
        assert(v.balances[o] == v.holdings(o).len());
    }
}

/// Two states with the same ownership records and balance counters are
/// alike in what holds of these.
pub proof fn lemma_same_ownership(v: LedgerView, w: LedgerView)
    requires
        v.ownership_consistent(),
        w.owners == v.owners,
        w.balances == v.balances,
        w.owned.dom() == v.owned.dom(),
        w.minted == v.minted,
        w.burned == v.burned,
    ensures
        w.ownership_consistent(),
{
    assert forall|o: Identity|
        #![trigger w.balances[o]]
        #![trigger w.holdings(o)]
        w.balances[o] == w.holdings(o).len() by {
        assert(w.holdings(o) =~= v.holdings(o));
        assert(v.balances[o] == v.holdings(o).len());
    }
}

/// A ledger that was just set up is consistent.
pub proof fn lemma_initial_consistent(
    admin: Identity,
    name: Seq<char>,
    symbol: Seq<char>,
    enumerable: bool,
)
    ensures
        LedgerView::initial(admin, name, symbol, enumerable).consistent(),
{
    let v = LedgerView::initial(admin, name, symbol, enumerable);
    assert(v.owners.dom() =~= Set::<u32>::empty());
    assert(v.balances.dom() =~= Set::<Identity>::full());
    assert(v.owned.dom() =~= Set::<Identity>::full());
    assert forall|o: Identity|
        #![trigger v.balances[o]]
        #![trigger v.holdings(o)]
        v.balances[o] == v.holdings(o).len() by {
        assert(v.holdings(o) =~= Set::<u32>::empty());
    }
}

/// A mint keeps the ledger consistent.
pub proof fn lemma_mint_consistent(v: LedgerView, to: Identity, token: u32)
    requires
        v.consistent(),
    ensures
        v.mint(to, token).consistent(),
{
    if !v.owners.contains_key(token) {
        let w = v.mint(to, token);
        assert(w.owners.dom() =~= v.owners.dom().insert(token));
        assert(w.balances.dom() =~= Set::<Identity>::full());
        assert(w.owned.dom() =~= Set::<Identity>::full());
        assert forall|o: Identity|
            #![trigger w.balances[o]]
            #![trigger w.holdings(o)]
            w.balances[o] == w.holdings(o).len() by {
            lemma_holdings_bounded(v, o);
            assert(v.balances[o] == v.holdings(o).len());
            if o == to {
                assert(w.holdings(o) =~= v.holdings(o).insert(token));
            } else {
                assert(w.holdings(o) =~= v.holdings(o));
            }
        }
        if v.enumerable {
            assert(!v.tokens.contains(token));
            lemma_push_fresh(v.tokens, token);
            assert(!v.owned[to].contains(token)) by {
                assert(!v.owns(to, token));
            }
            lemma_push_fresh(v.owned[to], token);
            assert forall|o: Identity| #[trigger] w.owned[o].no_duplicates() by {
                if o != to {
                    assert(w.owned[o] == v.owned[o]);
                }
            }
            assert forall|o: Identity, t: u32| #[trigger]
                w.owned[o].contains(t) <==> w.owns(o, t) by {
                assert(v.owned[o].contains(t) <==> v.owns(o, t));
            }
        } else {
            assert forall|o: Identity| #[trigger] w.owned[o] == Seq::<u32>::empty() by {
                assert(v.owned[o] == Seq::<u32>::empty());
            }
        }
    }
}

/// Passing a token from its owner to another identity keeps the ledger
/// consistent.
pub proof fn lemma_moved_consistent(v: LedgerView, from: Identity, to: Identity, token: u32)
    requires
        v.consistent(),
        v.owns(from, token),
    ensures
        v.moved(from, to, token).consistent(),
        v.balances[from] >= 1,
{
    let w = v.moved(from, to, token);
    lemma_holdings_bounded(v, from);
    assert(v.holdings(from).contains(token));
    assert(v.balances[from] == v.holdings(from).len());
    if from != to {
        assert(w.owners.dom() =~= v.owners.dom());
        assert(w.balances.dom() =~= Set::<Identity>::full());
        assert(w.owned.dom() =~= Set::<Identity>::full());
        assert forall|o: Identity|
            #![trigger w.balances[o]]
            #![trigger w.holdings(o)]
            w.balances[o] == w.holdings(o).len() by {
            lemma_holdings_bounded(v, o);
            assert(v.balances[o] == v.holdings(o).len());
            if o == to {
                assert(w.holdings(o) =~= v.holdings(o).insert(token));
            } else if o == from {
                assert(w.holdings(o) =~= v.holdings(o).remove(token));
            } else {
                assert(w.holdings(o) =~= v.holdings(o));
            }
        }
        if v.enumerable {
            assert(v.owned[from].contains(token));
            lemma_without(v.owned[from], token);
            assert(!v.owned[to].contains(token)) by {
                assert(!v.owns(to, token));
            }
            lemma_push_fresh(v.owned[to], token);
            assert forall|o: Identity| #[trigger] w.owned[o].no_duplicates() by {
                if o != to && o != from {
                    assert(w.owned[o] == v.owned[o]);
                }
            }
            assert forall|o: Identity, t: u32| #[trigger]
                w.owned[o].contains(t) <==> w.owns(o, t) by {
                assert(v.owned[o].contains(t) <==> v.owns(o, t));
            }
        } else {
            assert forall|o: Identity| #[trigger] w.owned[o] == Seq::<u32>::empty() by {
                assert(v.owned[o] == Seq::<u32>::empty());
            }
        }
    } else {
        lemma_same_ownership(v, w);
    }
}

/// Destroying a live token keeps the ledger consistent.
pub proof fn lemma_destroyed_consistent(v: LedgerView, token: u32)
    requires
        v.consistent(),
        v.owners.contains_key(token),
    ensures
        v.destroyed(token).consistent(),
        v.balances[v.owners[token]] >= 1,
        v.supply() >= 1,
{
    let w = v.destroyed(token);
    let owner = v.owners[token];
    lemma_holdings_bounded(v, owner);
    assert(v.holdings(owner).contains(token));
    assert(v.balances[owner] == v.holdings(owner).len());
    assert(w.owners.dom() =~= v.owners.dom().remove(token));
    assert(w.balances.dom() =~= Set::<Identity>::full());
    assert(w.owned.dom() =~= Set::<Identity>::full());
    assert forall|o: Identity|
        #![trigger w.balances[o]]
        #![trigger w.holdings(o)]
        w.balances[o] == w.holdings(o).len() by {
        lemma_holdings_bounded(v, o);
        assert(v.balances[o] == v.holdings(o).len());
        if o == owner {
            assert(w.holdings(o) =~= v.holdings(o).remove(token));
        } else {
            assert(w.holdings(o) =~= v.holdings(o));
        }
    }
    if v.enumerable {
        assert(v.tokens.contains(token));
        lemma_without(v.tokens, token);
        assert(v.owned[owner].contains(token)) by {
            assert(v.owns(owner, token));
        }
        lemma_without(v.owned[owner], token);
        assert forall|o: Identity| #[trigger] w.owned[o].no_duplicates() by {
            if o != owner {
                assert(w.owned[o] == v.owned[o]);
            }
        }
        assert forall|o: Identity, t: u32| #[trigger]
            w.owned[o].contains(t) <==> w.owns(o, t) by {
            assert(v.owned[o].contains(t) <==> v.owns(o, t));
        }
    } else {
        assert forall|o: Identity| #[trigger] w.owned[o] == Seq::<u32>::empty() by {
            assert(v.owned[o] == Seq::<u32>::empty());
        }
    }
}


/// An identity that does not own a given live token owns fewer tokens than
/// there are.
pub proof fn lemma_holdings_of_another(v: LedgerView, other: Identity, token: u32)
    requires
        v.owners.dom().finite(),
        v.owners.contains_key(token),
        v.owners[token] != other,
    ensures
        v.holdings(other).len() < v.supply(),
{
    let rest = v.owners.dom().remove(token);
    assert(v.holdings(other).subset_of(rest));
    lemma_len_subset(v.holdings(other), rest);
}


/// Setting or clearing a single approval keeps the ledger consistent.
pub proof fn lemma_approve_consistent(
    v: LedgerView,
    caller: Identity,
    approved: Option<Identity>,
    token: u32,
    horizon: u32,
)
    requires
        v.consistent(),
    ensures
        v.approve(caller, approved, token, horizon) matches Ok(w) ==> w.consistent(),
{
    if let Ok(w) = v.approve(caller, approved, token, horizon) {
        lemma_same_ownership(v, w);
    }
}

/// Granting or withdrawing a blanket approval keeps the ledger consistent.
pub proof fn lemma_set_approval_for_all_consistent(
    v: LedgerView,
    caller: Identity,
    owner: Identity,
    operator: Identity,
    approved: bool,
    horizon: u32,
)
    requires
        v.consistent(),
    ensures
        v.set_approval_for_all(caller, owner, operator, approved, horizon) matches Ok(w)
            ==> w.consistent(),
{
    if let Ok(w) = v.set_approval_for_all(caller, owner, operator, approved, horizon) {
        lemma_same_ownership(v, w);
    }
}

/// The passing of time keeps the ledger consistent.
pub proof fn lemma_advance_consistent(v: LedgerView, now: u32)
    requires
        v.consistent(),
    ensures
        v.advance_to(now).consistent(),
{
    lemma_same_ownership(v, v.advance_to(now));
}

/// Recording a locator keeps the ledger consistent.
pub proof fn lemma_set_token_uri_consistent(v: LedgerView, token: u32, uri: Seq<char>)
    requires
        v.consistent(),
    ensures
        v.set_token_uri(token, uri).consistent(),
{
    lemma_same_ownership(v, v.set_token_uri(token, uri));
}

/// Every request, granted or rejected, leaves a consistent ledger consistent.
pub proof fn lemma_apply_consistent(v: LedgerView, op: Operation)
    requires
        v.consistent(),
    ensures
        v.apply(op).consistent(),
{
    match op {
        Operation::Mint { to, token } => {
            lemma_mint_consistent(v, to, token);
        },
        Operation::Transfer { spender, from, to, token } => {
            if v.transfer_from(spender, from, to, token) is Ok {
                lemma_moved_consistent(v, from, to, token);
            }
        },
        Operation::Burn { caller, token } => {
            if v.burn(caller, token) is Ok {
                lemma_destroyed_consistent(v, token);
            }
        },
        Operation::Approve { caller, who, token, horizon } => {
            lemma_approve_consistent(v, caller, who, token, horizon);
        },
        Operation::SetApprovalForAll { caller, owner, operator, approved, horizon } => {
            lemma_set_approval_for_all_consistent(v, caller, owner, operator, approved, horizon);
        },
        Operation::AdvanceTo { now } => {
            lemma_advance_consistent(v, now);
        },
    }
}

/// After any sequence of requests to a consistent ledger the ledger is
/// consistent: each live token has one owner; each balance counts the tokens
/// of its identity; the live tokens number the minted less the burned; the
/// enumerations, where maintained, list exactly the live tokens and exactly
/// each identity's tokens, each once; and only live tokens carry a single
/// approval.
pub proof fn lemma_run_consistent(v: LedgerView, ops: Seq<Operation>)
    requires
        v.consistent(),
    ensures
        v.run(ops).consistent(),
    decreases ops.len(),
{
    if ops.len() > 0 {
        lemma_run_consistent(v, ops.drop_last());
        lemma_apply_consistent(v.run(ops.drop_last()), ops.last());
    }
}

/// The balances of identities that are all different add up to the number
/// of live tokens that one of them owns.
pub proof fn lemma_sum_of_balances(v: LedgerView, ids: Seq<Identity>)
    requires
        v.consistent(),
        ids.no_duplicates(),
    ensures
        v.held_by(ids).finite(),
        v.sum_of_balances(ids) == v.held_by(ids).len(),
    decreases ids.len(),
{
    if ids.len() == 0 {
        assert(v.held_by(ids) =~= Set::<u32>::empty());
    } else {
        let rest = ids.drop_last();
        let last = ids.last();
        lemma_sum_of_balances(v, rest);
        lemma_holdings_bounded(v, last);
        assert(v.balances[last] == v.holdings(last).len());
        assert forall|t: u32| v.held_by(ids).contains(t) <==> v.held_by(rest).contains(t)
            || v.holdings(last).contains(t) by {
            if v.owners.contains_key(t) {
                let o = v.owners[t];
                if ids.contains(o) {
                    let k = choose|k: int| 0 <= k < ids.len() && ids[k] == o;
                    if k < rest.len() {
                        assert(rest[k] == o);
                    }
                }
                if rest.contains(o) {
                    let k = choose|k: int| 0 <= k < rest.len() && rest[k] == o;
                    assert(ids[k] == o);
                }
                if o == last {
                    assert(ids[ids.len() - 1] == o);
                }
            }
        }
        assert(v.held_by(ids) =~= v.held_by(rest) + v.holdings(last));
        assert(v.held_by(rest).disjoint(v.holdings(last))) by {
            assert forall|t: u32| !(v.held_by(rest).contains(t) && v.holdings(last).contains(t)) by {
                if v.held_by(rest).contains(t) && v.holdings(last).contains(t) {
                    let k = choose|k: int| 0 <= k < rest.len() && rest[k] == last;
                    assert(ids[k] == ids[ids.len() - 1]);
                }
            }
        }
        lemma_set_disjoint_lens(v.held_by(rest), v.holdings(last));
    }
}

/// Balance conservation: the balances of all owners add up to the supply.
/// The owners may be listed with others, each identity once.
pub proof fn lemma_balance_conservation(v: LedgerView, ids: Seq<Identity>)
    requires
        v.consistent(),
        ids.no_duplicates(),
        forall|t: u32| #[trigger] v.owners.contains_key(t) ==> ids.contains(v.owners[t]),
    ensures
        v.sum_of_balances(ids) == v.supply(),
        v.enumerable ==> v.sum_of_balances(ids) == v.tokens.len(),
{
    lemma_sum_of_balances(v, ids);
    assert(v.held_by(ids) =~= v.owners.dom());
    if v.enumerable {
        lemma_enumeration_counts(v);
    }
}

/// Where the enumeration is maintained, the enumeration of all tokens is as
/// long as the number of tokens minted less the number burned.
pub proof fn lemma_enumeration_length(v: LedgerView)
    requires
        v.consistent(),
        v.enumerable,
    ensures
        v.tokens.len() + v.burned == v.minted,
{
    lemma_enumeration_counts(v);
}

/// Approval clearing: after a transfer that was granted, the token carries
/// no single approval, by whatever path the transfer was authorized.
pub proof fn lemma_transfer_clears_approval(
    v: LedgerView,
    spender: Identity,
    from: Identity,
    to: Identity,
    token: u32,
)
    ensures
        v.transfer_from(spender, from, to, token) matches Ok(w) ==> !w.approved.contains_key(token)
            && w.approved_for(token) is None,
{
}

/// After a burn that was granted, the token is not live and carries no
/// single approval.
pub proof fn lemma_burn_clears_approval(v: LedgerView, caller: Identity, token: u32)
    ensures
        v.burn(caller, token) matches Ok(w) ==> !w.approved.contains_key(token) && w.owner_of(token)
            is None,
{
}

/// A blanket approval that is absent or whose horizon has passed denies.
pub proof fn lemma_lapsed_operator_denies(v: LedgerView, owner: Identity, operator: Identity)
    ensures
        !v.operators.contains_key((owner, operator)) ==> !v.is_operator(owner, operator),
        v.operators.contains_key((owner, operator)) && v.operators[(owner, operator)] < v.now
            ==> !v.is_operator(owner, operator),
{
}

/// Out-of-range rejection: a position at or past the supply is refused, in
/// the enumeration of all tokens and in that of any identity.
pub proof fn lemma_out_of_range(v: LedgerView, owner: Identity, position: u32)
    requires
        v.consistent(),
        position >= v.supply(),
    ensures
        v.token_by_index(position) == Err::<u32, Error>(Error::OutOfBounds),
        v.token_of_owner_by_index(owner, position) == Err::<u32, Error>(Error::OutOfBounds),
{
    lemma_holdings_bounded(v, owner);
    assert(v.balances[owner] == v.holdings(owner).len());
    if v.enumerable {
        lemma_enumeration_counts(v);
        assert(v.owned[owner].len() == v.balances[owner]);
    } else {
        assert(v.owned[owner] == Seq::<u32>::empty());
    }
}

/// Idempotent mint: minting a token a second time, to whomever, leaves the
/// ledger as the first mint left it.
pub proof fn lemma_mint_twice(v: LedgerView, first: Identity, second: Identity, token: u32)
    ensures
        v.mint(first, token).mint(second, token) == v.mint(first, token),
{
}


/// A mint of a token that is not live adds one to the supply and makes the
/// token live; nothing else becomes live or ceases to be.
pub proof fn lemma_mint_supply(v: LedgerView, to: Identity, token: u32)
    requires
        v.owners.dom().finite(),
    ensures
        v.mint(to, token).supply() == v.supply() + (if v.owners.contains_key(token) {
            0nat
        } else {
            1nat
        }),
        v.mint(to, token).owners.dom() == v.owners.dom().insert(token),
{
    assert(v.mint(to, token).owners.dom() =~= v.owners.dom().insert(token));
}

/// A transfer, an approval and a blanket approval leave the live tokens and
/// the supply as they were, granted or not.
pub proof fn lemma_same_tokens(v: LedgerView, op: Operation)
    requires
        !(op is Mint),
        !(op is Burn),
    ensures
        v.apply(op).owners.dom() == v.owners.dom(),
        v.apply(op).supply() == v.supply(),
{
    assert(v.apply(op).owners.dom() =~= v.owners.dom());
}


/// Putting an identity's tokens in another order keeps the ledger
/// consistent: nothing but the order of that one enumeration changes.
pub proof fn lemma_arrange_owned_consistent(v: LedgerView, owner: Identity, order: Seq<u32>)
    requires
        v.consistent(),
    ensures
        v.arrange_owned(owner, order) matches Some(w) ==> w.consistent() && (forall|t: u32|
            #[trigger] w.owned[owner].contains(t) <==> v.owned[owner].contains(t)),
{
    if let Some(w) = v.arrange_owned(owner, order) {
        assert(w.owned.dom() =~= v.owned.dom());
        lemma_same_ownership(v, w);
        if v.enumerable {
            assert(v.owned[owner].no_duplicates());
            lemma_rearranges(order, v.owned[owner]);
            assert forall|o: Identity| #[trigger] w.owned[o].no_duplicates() by {
                if o != owner {
                    assert(w.owned[o] == v.owned[o]);
                }
            }
            assert forall|o: Identity, t: u32| #[trigger]
                w.owned[o].contains(t) <==> w.owns(o, t) by {
                assert(v.owned[o].contains(t) <==> v.owns(o, t));
            }
        } else {
            assert(v.owned[owner] == Seq::<u32>::empty());
            assert(order =~= Seq::<u32>::empty());
            assert forall|o: Identity| #[trigger] w.owned[o] == Seq::<u32>::empty() by {
                assert(v.owned[o] == Seq::<u32>::empty());
            }
        }
    }
}

} // verus!
