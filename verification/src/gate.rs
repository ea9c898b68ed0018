//! The authorization gate: pure decisions on whether a caller may mutate the
//! ledger, taken from facts that the ledger looks up.
//!
//! A decision names the path that authorizes. Only when there is such a path
//! does the host need the caller to assert its identity; a refusal asks for
//! no assertion at all.

use vstd::prelude::*;
use crate::identity::Identity;

verus! {

/// The path by which a caller is authorized.
#[derive(Clone, Copy, Debug, PartialEq, Eq, Structural)]
pub enum Authority {
    /// The caller is the owner itself.
    Owner,
    /// The caller holds the live single approval of the token.
    Approved,
    /// The caller is a live blanket operator of the owner.
    Operator,
}

/// The path on which `spender` may move a token out of `from`'s hands:
/// as `from` itself, else as the token's approved identity, else as one of
/// `from`'s operators; the first that applies.
pub open spec fn transfer_authority(
    spender: Identity,
    from: Identity,
    approved: Option<Identity>,
    operator: bool,
) -> Option<Authority> {
    if spender == from {
        Some(Authority::Owner)
    } else if approved == Some(spender) {
        Some(Authority::Approved)
    } else if operator {
        Some(Authority::Operator)
    } else {
        None
    }
}

/// The path on which `caller` may act for `owner` where a single approval
/// does not count: as the owner itself, else as one of its operators.
pub open spec fn owner_authority(caller: Identity, owner: Identity, operator: bool) -> Option<
    Authority,
> {
    if caller == owner {
        Some(Authority::Owner)
    } else if operator {
        Some(Authority::Operator)
    } else {
        None
    }
}

/// Decides a transfer. `approved` is the live single approval of the token,
/// `operator` whether `spender` is a live operator of `from`.
pub fn authorize_transfer(
    spender: &Identity,
    from: &Identity,
    approved: Option<Identity>,
    operator: bool,
) -> (path: Option<Authority>)
    ensures
        path == transfer_authority(*spender, *from, approved, operator),
{
    if spender.same(from) {
        return Some(Authority::Owner);
    }
    let holds_approval = match approved {
        Some(a) => a.same(spender),
        None => false,
    };
    if holds_approval {
        Some(Authority::Approved)
    } else if operator {
        Some(Authority::Operator)
    } else {
        None
    }
}

/// Decides an approval, a blanket approval or a burn. `operator` is whether
/// `caller` is a live operator of `owner`.
pub fn authorize_owner(caller: &Identity, owner: &Identity, operator: bool) -> (path: Option<
    Authority,
>)
    ensures
        path == owner_authority(*caller, *owner, operator),
{
    if caller.same(owner) {
        Some(Authority::Owner)
    } else if operator {
        Some(Authority::Operator)
    } else {
        None
    }
}

} // verus!
