use erc721::gate::{authorize_owner, authorize_transfer};
use erc721::holders::Holders;
use erc721::registry::ApprovalRegistry;
use erc721::{
    Admin, Authority, DataKey, DataKeyEnumerable, DatakeyMetadata, Error, Event, Identity,
    MillionDataKey, MillionError, Tier, TokenIndex,
};

fn user(n: u128) -> Identity {
    Identity::account(0, n)
}

#[test]
fn index_appends_and_looks_up() {
    let mut index = TokenIndex::new();
    assert_eq!(index.len(), 0);
    assert!(index.insert(10));
    assert!(index.insert(20));
    assert!(index.insert(30));
    assert!(!index.insert(20));
    assert_eq!(index.len(), 3);
    assert_eq!(index.get(0), Some(10));
    assert_eq!(index.get(1), Some(20));
    assert_eq!(index.get(2), Some(30));
    assert_eq!(index.get(3), None);
    assert_eq!(index.position(10), Some(0));
    assert_eq!(index.position(30), Some(2));
    assert_eq!(index.position(40), None);
    assert!(index.contains(20));
    assert!(!index.contains(40));
}

#[test]
fn index_removal_moves_the_last_token_into_the_gap() {
    let mut index = TokenIndex::new();
    for t in [10u32, 20, 30, 40] {
        assert!(index.insert(t));
    }
    assert!(index.remove(20));
    assert_eq!(index.len(), 3);
    assert_eq!(index.get(0), Some(10));
    assert_eq!(index.get(1), Some(40));
    assert_eq!(index.get(2), Some(30));
    assert_eq!(index.get(3), None);
    assert_eq!(index.position(40), Some(1));
    assert_eq!(index.position(30), Some(2));
    assert_eq!(index.position(20), None);
    assert!(!index.contains(20));
    assert!(!index.remove(20));
    assert_eq!(index.len(), 3);
}

#[test]
fn index_removal_of_the_last_and_the_only_token() {
    let mut index = TokenIndex::new();
    for t in [1u32, 2, 3] {
        assert!(index.insert(t));
    }
    assert!(index.remove(3));
    assert_eq!(index.get(0), Some(1));
    assert_eq!(index.get(1), Some(2));
    assert_eq!(index.get(2), None);
    assert!(index.remove(1));
    assert_eq!(index.get(0), Some(2));
    assert_eq!(index.position(2), Some(0));
    assert!(index.remove(2));
    assert_eq!(index.len(), 0);
    assert_eq!(index.get(0), None);
    assert!(!index.remove(2));
    assert!(index.insert(2));
    assert_eq!(index.position(2), Some(0));
}

#[test]
fn index_positions_stay_true_under_many_removals() {
    let mut index = TokenIndex::new();
    for t in 0u32..200 {
        assert!(index.insert(t * 3));
    }
    for t in 0u32..200 {
        if t % 4 != 1 {
            assert!(index.remove(t * 3));
        }
    }
    assert_eq!(index.len(), 50);
    for p in 0..index.len() {
        let t = index.get(p).unwrap();
        assert_eq!(t % 12, 3);
        assert_eq!(index.position(t), Some(p));
    }
    for t in 0u32..200 {
        assert_eq!(index.contains(t * 3), t % 4 == 1);
    }
}

#[test]
fn holders_count_and_list() {
    let a = user(1);
    let b = user(2);
    let mut table = Holders::new();
    assert_eq!(table.balance(&a), 0);
    assert_eq!(table.token_at(&a, 0), None);
    table.credit(&a, 5, true);
    table.credit(&a, 6, true);
    table.credit(&b, 7, true);
    assert_eq!(table.balance(&a), 2);
    assert_eq!(table.balance(&b), 1);
    assert_eq!(table.token_at(&a, 0), Some(5));
    assert_eq!(table.token_at(&a, 1), Some(6));
    assert_eq!(table.token_at(&a, 2), None);
    table.debit(&a, 5, true);
    assert_eq!(table.balance(&a), 1);
    assert_eq!(table.token_at(&a, 0), Some(6));
    assert_eq!(table.token_at(&a, 1), None);
    assert_eq!(table.token_at(&b, 0), Some(7));
}

#[test]
fn holders_without_enumeration_only_count() {
    let a = user(1);
    let mut table = Holders::new();
    table.credit(&a, 5, false);
    table.credit(&a, 6, false);
    assert_eq!(table.balance(&a), 2);
    assert_eq!(table.token_at(&a, 0), None);
    table.debit(&a, 5, false);
    assert_eq!(table.balance(&a), 1);
}

#[test]
fn registry_answers_only_with_live_entries() {
    let a = user(1);
    let b = user(2);
    let mut registry = ApprovalRegistry::new();
    assert_eq!(registry.get_approved(1), None);
    assert!(!registry.is_approval_for_all(&a, &b));
    registry.set_approved(1, b, 10);
    registry.grant(a, b, 5);
    assert_eq!(registry.get_approved(1), Some(b));
    assert!(registry.is_approval_for_all(&a, &b));
    assert!(!registry.is_approval_for_all(&b, &a));
    registry.advance_to(5);
    assert!(registry.is_approval_for_all(&a, &b));
    registry.advance_to(6);
    assert!(!registry.is_approval_for_all(&a, &b));
    assert_eq!(registry.get_approved(1), Some(b));
    registry.advance_to(11);
    assert_eq!(registry.get_approved(1), None);
    // a later horizon revives the entry; an earlier present does not
    registry.grant(a, b, 20);
    assert!(registry.is_approval_for_all(&a, &b));
    registry.advance_to(3);
    registry.set_approved(1, a, 11);
    assert_eq!(registry.get_approved(1), Some(a));
    registry.set_approved(1, a, 10);
    assert_eq!(registry.get_approved(1), None);
}

#[test]
fn registry_revokes_one_grant_among_many() {
    let owner = user(1);
    let mut registry = ApprovalRegistry::new();
    for n in 10u128..20 {
        registry.grant(owner, user(n), 100);
    }
    registry.revoke(&owner, &user(12));
    registry.revoke(&owner, &user(19));
    registry.revoke(&owner, &user(50));
    for n in 10u128..20 {
        assert_eq!(registry.is_approval_for_all(&owner, &user(n)), n != 12 && n != 19);
    }
    registry.clear_approved(1);
    registry.set_approved(1, owner, 0);
    registry.clear_approved(1);
    assert_eq!(registry.get_approved(1), None);
}

#[test]
fn gate_takes_the_first_path_that_applies() {
    let a = user(1);
    let b = user(2);
    assert_eq!(authorize_transfer(&a, &a, Some(a), true), Some(Authority::Owner));
    assert_eq!(authorize_transfer(&b, &a, Some(b), true), Some(Authority::Approved));
    assert_eq!(authorize_transfer(&b, &a, Some(a), true), Some(Authority::Operator));
    assert_eq!(authorize_transfer(&b, &a, None, true), Some(Authority::Operator));
    assert_eq!(authorize_transfer(&b, &a, Some(a), false), None);
    assert_eq!(authorize_transfer(&b, &a, None, false), None);
    assert_eq!(authorize_owner(&a, &a, false), Some(Authority::Owner));
    assert_eq!(authorize_owner(&a, &a, true), Some(Authority::Owner));
    assert_eq!(authorize_owner(&b, &a, true), Some(Authority::Operator));
    assert_eq!(authorize_owner(&b, &a, false), None);
}

#[test]
fn each_key_class_is_pinned_to_one_tier() {
    let a = user(1);
    assert_eq!(DataKey::Balance(a).tier(), Tier::Persistent);
    assert_eq!(DataKey::TokenOwner(1).tier(), Tier::Persistent);
    assert_eq!(DataKey::Approved(1).tier(), Tier::Temporary);
    assert_eq!(DataKey::Operator(a, a).tier(), Tier::Temporary);
    assert_eq!(Admin::User.tier(), Tier::Persistent);
    assert_eq!(DatakeyMetadata::Name.tier(), Tier::Instance);
    assert_eq!(DatakeyMetadata::Symbol.tier(), Tier::Instance);
    assert_eq!(DatakeyMetadata::Uri(3).tier(), Tier::Instance);
    assert_eq!(DataKeyEnumerable::IndexToken.tier(), Tier::Instance);
    assert_eq!(DataKeyEnumerable::TokenIndex.tier(), Tier::Instance);
    assert_eq!(DataKeyEnumerable::OwnerIndexToken(a).tier(), Tier::Instance);
    assert_eq!(DataKeyEnumerable::OwnerTokenIndex(a).tier(), Tier::Instance);
    assert_eq!(MillionDataKey::TokenId.tier(), Tier::Instance);
    assert_eq!(MillionDataKey::AssetAddress.tier(), Tier::Instance);
    assert_eq!(MillionDataKey::Price.tier(), Tier::Instance);
    assert!(Tier::Temporary.expires());
    assert!(!Tier::Instance.expires());
    assert!(!Tier::Persistent.expires());
}

#[test]
fn errors_and_events_have_their_codes_and_names() {
    assert_eq!(Error::NotOwner.code(), 0);
    assert_eq!(Error::NotNFT.code(), 1);
    assert_eq!(Error::NotAuthorized.code(), 2);
    assert_eq!(Error::OutOfBounds.code(), 4);
    assert_eq!(MillionError::Exhausted.code(), 1);
    assert_eq!(Event::Mint.name(), "Mint");
    assert_eq!(Event::Transfer.name(), "Transfer");
    assert_eq!(Event::Approve.name(), "Approve");
    assert_eq!(Event::Burn.name(), "Burn");
}

#[test]
fn index_from_a_list_keeps_the_order() {
    let index = TokenIndex::from_list(&vec![7, 5, 9]).unwrap();
    assert_eq!(index.len(), 3);
    assert_eq!(index.get(0), Some(7));
    assert_eq!(index.get(1), Some(5));
    assert_eq!(index.get(2), Some(9));
    assert_eq!(index.position(9), Some(2));
    assert_eq!(index.position(7), Some(0));
    assert!(TokenIndex::from_list(&vec![7, 5, 7]).is_none());
    assert!(TokenIndex::from_list(&vec![3, 3]).is_none());
    let empty = TokenIndex::from_list(&vec![]).unwrap();
    assert_eq!(empty.len(), 0);
}

#[test]
fn holders_take_another_order_of_the_same_tokens() {
    let a = user(1);
    let mut table = Holders::new();
    for t in [5u32, 6, 7] {
        table.credit(&a, t, true);
    }
    assert!(table.arrange(&a, &vec![7, 5, 6]));
    assert_eq!(table.token_at(&a, 0), Some(7));
    assert_eq!(table.token_at(&a, 1), Some(5));
    assert_eq!(table.token_at(&a, 2), Some(6));
    assert_eq!(table.balance(&a), 3);
    assert!(!table.arrange(&a, &vec![7, 5, 8]));
    assert!(!table.arrange(&a, &vec![7, 5]));
    assert!(!table.arrange(&a, &vec![7, 5, 5]));
    assert_eq!(table.token_at(&a, 2), Some(6));
    assert!(table.arrange(&user(2), &vec![]));
    assert!(!table.arrange(&user(2), &vec![5]));
}
