use erc721::{Authority, ERC721Contract, Error, Identity};

fn user(n: u128) -> Identity {
    Identity::account(0, n)
}

fn fresh(enumerable: bool) -> ERC721Contract {
    ERC721Contract::initialize(
        user(1000),
        String::from("Cool NFT"),
        String::from("COOL"),
        enumerable,
    )
}

/// Tokens 1 and 3 minted to A, token 2 to B.
fn three_tokens() -> (ERC721Contract, Identity, Identity) {
    let a = user(1);
    let b = user(2);
    let mut ledger = fresh(true);
    ledger.mint(a, 1);
    ledger.mint(b, 2);
    ledger.mint(a, 3);
    (ledger, a, b)
}

#[test]
fn simpl_test() {
    let admin = user(1000);
    let mut client = ERC721Contract::initialize(
        admin,
        String::from("Cool NFT"),
        String::from("COOL"),
        true,
    );

    let user1 = user(1);
    client.mint(user1, 1);
    assert_eq!(client.balance_of(user1), 1);

    let user2 = user(2);
    client.mint(user2, 2);
    assert_eq!(client.balance_of(user2), 1);

    assert_eq!(client.total_supply(), 2);

    client.mint(user1, 3);
    assert_eq!(client.balance_of(user1), 2);

    assert_eq!(client.token_by_index(0), Ok(1));
    assert_eq!(client.token_by_index(1), Ok(2));
    assert_eq!(client.token_by_index(2), Ok(3));

    assert_eq!(client.token_of_owner_by_index(user1, 0), Ok(1));
    assert_eq!(client.token_of_owner_by_index(user1, 1), Ok(3));
    assert_eq!(client.token_of_owner_by_index(user2, 0), Ok(2));

    assert_eq!(client.transfer_from(user1, user1, user2, 3), Ok(()));

    assert_eq!(client.balance_of(user1), 1);
    assert_eq!(client.balance_of(user2), 2);

    assert_eq!(client.token_of_owner_by_index(user1, 0), Ok(1));
    assert_eq!(client.token_of_owner_by_index(user2, 1), Ok(3));
    assert_eq!(client.token_of_owner_by_index(user2, 0), Ok(2));

    assert_eq!(client.burn(user2, 2), Ok(()));

    assert_eq!(client.balance_of(user1), 1);
    assert_eq!(client.balance_of(user2), 1);

    assert_eq!(client.token_of_owner_by_index(user1, 0), Ok(1));
    assert_eq!(client.token_of_owner_by_index(user2, 0), Ok(3));
    assert_eq!(client.total_supply(), 2);
}

#[test]
fn initialize_sets_metadata_and_admin() {
    let ledger = fresh(true);
    assert_eq!(ledger.name(), "Cool NFT");
    assert_eq!(ledger.symbol(), "COOL");
    assert_eq!(ledger.admin(), user(1000));
    assert!(ledger.is_enumerable());
    assert_eq!(ledger.total_supply(), 0);
    assert_eq!(ledger.balance_of(user(1)), 0);
    assert_eq!(ledger.owner_of(1), None);
    assert_eq!(ledger.token_by_index(0), Err(Error::OutOfBounds));
}

#[test]
fn mints_are_counted_and_enumerated() {
    let (ledger, a, b) = three_tokens();
    assert_eq!(ledger.balance_of(a), 2);
    assert_eq!(ledger.balance_of(b), 1);
    assert_eq!(ledger.total_supply(), 3);
    assert_eq!(ledger.token_of_owner_by_index(a, 0), Ok(1));
    assert_eq!(ledger.token_of_owner_by_index(a, 1), Ok(3));
    assert_eq!(ledger.owner_of(1), Some(a));
    assert_eq!(ledger.owner_of(2), Some(b));
    assert_eq!(ledger.owner_of(3), Some(a));
}

#[test]
fn owner_transfers_its_own_token() {
    let (mut ledger, a, b) = three_tokens();
    assert_eq!(ledger.transfer_authority(a, a, 3), Some(Authority::Owner));
    assert_eq!(ledger.transfer_from(a, a, b, 3), Ok(()));
    assert_eq!(ledger.balance_of(a), 1);
    assert_eq!(ledger.balance_of(b), 2);
    assert_eq!(ledger.token_of_owner_by_index(b, 1), Ok(3));
    assert_eq!(ledger.owner_of(3), Some(b));
    assert_eq!(ledger.total_supply(), 3);
    assert_eq!(ledger.token_by_index(2), Ok(3));
}

#[test]
fn burn_shrinks_both_enumerations() {
    let (mut ledger, a, b) = three_tokens();
    assert_eq!(ledger.transfer_from(a, a, b, 3), Ok(()));
    assert_eq!(ledger.burn(b, 2), Ok(()));
    assert_eq!(ledger.balance_of(b), 1);
    assert_eq!(ledger.total_supply(), 2);
    let mut live = vec![ledger.token_by_index(0).unwrap(), ledger.token_by_index(1).unwrap()];
    live.sort();
    assert_eq!(live, vec![1, 3]);
    assert_eq!(ledger.token_by_index(2), Err(Error::OutOfBounds));
    assert_eq!(ledger.token_of_owner_by_index(b, 0), Ok(3));
    assert_eq!(ledger.token_of_owner_by_index(b, 1), Err(Error::OutOfBounds));
    assert_eq!(ledger.owner_of(2), None);
}

#[test]
fn approved_identity_transfers_and_approval_is_cleared() {
    let (mut ledger, a, b) = three_tokens();
    let c = user(3);
    assert_eq!(ledger.approve(a, Some(c), 1, 500), Ok(()));
    assert_eq!(ledger.get_approved(1), Some(c));
    assert_eq!(ledger.transfer_authority(c, a, 1), Some(Authority::Approved));
    assert_eq!(ledger.transfer_from(c, a, b, 1), Ok(()));
    assert_eq!(ledger.get_approved(1), None);
    assert_eq!(ledger.owner_of(1), Some(b));
    assert_eq!(ledger.transfer_from(c, b, a, 1), Err(Error::NotAuthorized));
}

#[test]
fn approve_of_unminted_token_is_not_nft() {
    let (mut ledger, a, _b) = three_tokens();
    assert_eq!(ledger.approve(a, Some(user(3)), 99, 500), Err(Error::NotNFT));
    assert_eq!(ledger.get_approved(99), None);
}

#[test]
fn stranger_cannot_transfer() {
    let (mut ledger, a, b) = three_tokens();
    let d = user(4);
    assert_eq!(ledger.transfer_authority(d, a, 1), None);
    assert_eq!(ledger.transfer_from(d, a, b, 1), Err(Error::NotAuthorized));
    assert_eq!(ledger.owner_of(1), Some(a));
    assert_eq!(ledger.balance_of(a), 2);
    assert_eq!(ledger.balance_of(b), 1);
}

#[test]
fn transfer_errors_come_in_order() {
    let (mut ledger, a, b) = three_tokens();
    let d = user(4);
    // a stranger is refused before the token is looked at
    assert_eq!(ledger.transfer_from(d, a, b, 99), Err(Error::NotAuthorized));
    // the named owner itself asks for a token that is not live
    assert_eq!(ledger.transfer_from(a, a, b, 99), Err(Error::NotNFT));
    // the named owner does not own the token
    assert_eq!(ledger.transfer_from(a, a, b, 2), Err(Error::NotOwner));
    assert_eq!(ledger.owner_of(2), Some(b));
}

#[test]
fn rejected_transfer_keeps_the_approval() {
    let (mut ledger, a, b) = three_tokens();
    let c = user(3);
    assert_eq!(ledger.approve(a, Some(c), 1, 500), Ok(()));
    // c is approved for token 1 but names the wrong owner
    assert_eq!(ledger.transfer_from(c, b, a, 1), Err(Error::NotOwner));
    assert_eq!(ledger.get_approved(1), Some(c));
}

#[test]
fn transfer_by_owner_clears_the_approval_too() {
    let (mut ledger, a, b) = three_tokens();
    let c = user(3);
    assert_eq!(ledger.approve(a, Some(c), 1, 500), Ok(()));
    assert_eq!(ledger.transfer_from(a, a, b, 1), Ok(()));
    assert_eq!(ledger.get_approved(1), None);
}

#[test]
fn transfer_to_oneself_changes_only_the_approval() {
    let (mut ledger, a, _b) = three_tokens();
    let c = user(3);
    assert_eq!(ledger.approve(a, Some(c), 1, 500), Ok(()));
    assert_eq!(ledger.transfer_from(a, a, a, 1), Ok(()));
    assert_eq!(ledger.get_approved(1), None);
    assert_eq!(ledger.balance_of(a), 2);
    assert_eq!(ledger.token_of_owner_by_index(a, 0), Ok(1));
    assert_eq!(ledger.token_of_owner_by_index(a, 1), Ok(3));
}

#[test]
fn operator_transfers_approves_and_burns() {
    let (mut ledger, a, b) = three_tokens();
    let op = user(5);
    assert!(!ledger.is_approval_for_all(a, op));
    assert_eq!(ledger.set_approval_for_all(a, a, op, true, 100), Ok(()));
    assert!(ledger.is_approval_for_all(a, op));
    assert_eq!(ledger.owner_authority(op, a), Some(Authority::Operator));
    assert_eq!(ledger.transfer_authority(op, a, 1), Some(Authority::Operator));
    assert_eq!(ledger.approve(op, Some(b), 3, 100), Ok(()));
    assert_eq!(ledger.get_approved(3), Some(b));
    assert_eq!(ledger.transfer_from(op, a, b, 1), Ok(()));
    assert_eq!(ledger.owner_of(1), Some(b));
    assert_eq!(ledger.burn(op, 3), Ok(()));
    assert_eq!(ledger.owner_of(3), None);
    assert_eq!(ledger.get_approved(3), None);
    assert_eq!(ledger.balance_of(a), 0);
}

#[test]
fn operator_may_pass_blanket_approval_on() {
    let (mut ledger, a, _b) = three_tokens();
    let op = user(5);
    let other = user(6);
    assert_eq!(ledger.set_approval_for_all(other, a, other, true, 100), Err(Error::NotAuthorized));
    assert_eq!(ledger.set_approval_for_all(a, a, op, true, 100), Ok(()));
    assert_eq!(ledger.set_approval_for_all(op, a, other, true, 100), Ok(()));
    assert!(ledger.is_approval_for_all(a, other));
}

#[test]
fn withdrawn_blanket_approval_is_removed() {
    let (mut ledger, a, b) = three_tokens();
    let op = user(5);
    assert_eq!(ledger.set_approval_for_all(a, a, op, true, 100), Ok(()));
    assert_eq!(ledger.set_approval_for_all(a, a, op, false, 100), Ok(()));
    assert!(!ledger.is_approval_for_all(a, op));
    assert_eq!(ledger.transfer_from(op, a, b, 1), Err(Error::NotAuthorized));
    // withdrawing what was never granted is accepted and changes nothing
    assert_eq!(ledger.set_approval_for_all(a, a, user(7), false, 0), Ok(()));
    assert!(!ledger.is_approval_for_all(a, user(7)));
}

#[test]
fn blanket_approval_is_per_owner() {
    let (mut ledger, a, b) = three_tokens();
    let op = user(5);
    assert_eq!(ledger.set_approval_for_all(a, a, op, true, 100), Ok(()));
    assert!(!ledger.is_approval_for_all(b, op));
    assert!(!ledger.is_approval_for_all(op, a));
    assert_eq!(ledger.transfer_from(op, b, a, 2), Err(Error::NotAuthorized));
}

#[test]
fn approvals_lapse_after_their_horizon() {
    let (mut ledger, a, b) = three_tokens();
    let c = user(3);
    let op = user(5);
    ledger.advance_to(10);
    assert_eq!(ledger.approve(a, Some(c), 1, 20), Ok(()));
    assert_eq!(ledger.set_approval_for_all(a, a, op, true, 20), Ok(()));
    ledger.advance_to(20);
    assert_eq!(ledger.get_approved(1), Some(c));
    assert!(ledger.is_approval_for_all(a, op));
    ledger.advance_to(21);
    assert_eq!(ledger.get_approved(1), None);
    assert!(!ledger.is_approval_for_all(a, op));
    assert_eq!(ledger.transfer_from(c, a, b, 1), Err(Error::NotAuthorized));
    assert_eq!(ledger.transfer_from(op, a, b, 1), Err(Error::NotAuthorized));
    assert_eq!(ledger.burn(op, 1), Err(Error::NotAuthorized));
}

#[test]
fn approval_with_a_past_horizon_is_dead_on_arrival() {
    let (mut ledger, a, b) = three_tokens();
    let c = user(3);
    ledger.advance_to(50);
    assert_eq!(ledger.approve(a, Some(c), 1, 49), Ok(()));
    assert_eq!(ledger.get_approved(1), None);
    assert_eq!(ledger.transfer_from(c, a, b, 1), Err(Error::NotAuthorized));
    assert_eq!(ledger.set_approval_for_all(a, a, c, true, 49), Ok(()));
    assert!(!ledger.is_approval_for_all(a, c));
}

#[test]
fn the_present_never_moves_backwards() {
    let (mut ledger, a, _b) = three_tokens();
    let c = user(3);
    ledger.advance_to(30);
    assert_eq!(ledger.approve(a, Some(c), 1, 25), Ok(()));
    ledger.advance_to(5);
    assert_eq!(ledger.get_approved(1), None);
}

#[test]
fn approval_can_be_replaced_and_cleared() {
    let (mut ledger, a, b) = three_tokens();
    let c = user(3);
    assert_eq!(ledger.approve(a, Some(c), 1, 500), Ok(()));
    assert_eq!(ledger.approve(a, Some(b), 1, 500), Ok(()));
    assert_eq!(ledger.get_approved(1), Some(b));
    assert_eq!(ledger.approve(a, None, 1, 500), Ok(()));
    assert_eq!(ledger.get_approved(1), None);
}

#[test]
fn stranger_cannot_approve() {
    let (mut ledger, a, b) = three_tokens();
    let d = user(4);
    assert_eq!(ledger.approve(d, Some(d), 1, 500), Err(Error::NotAuthorized));
    assert_eq!(ledger.approve(b, Some(d), 1, 500), Err(Error::NotAuthorized));
    assert_eq!(ledger.get_approved(1), None);
    // a token that is not live is refused as such, whoever asks
    assert_eq!(ledger.approve(d, Some(d), 99, 500), Err(Error::NotNFT));
    assert_eq!(ledger.owner_of(1), Some(a));
}

#[test]
fn holder_of_a_single_approval_cannot_burn() {
    let (mut ledger, a, _b) = three_tokens();
    let c = user(3);
    assert_eq!(ledger.approve(a, Some(c), 1, 500), Ok(()));
    assert_eq!(ledger.burn(c, 1), Err(Error::NotAuthorized));
    assert_eq!(ledger.owner_of(1), Some(a));
    assert_eq!(ledger.get_approved(1), Some(c));
    assert_eq!(ledger.total_supply(), 3);
}

#[test]
fn burn_rejections() {
    let (mut ledger, a, b) = three_tokens();
    assert_eq!(ledger.burn(a, 99), Err(Error::NotNFT));
    assert_eq!(ledger.burn(user(4), 99), Err(Error::NotNFT));
    assert_eq!(ledger.burn(b, 1), Err(Error::NotAuthorized));
    assert_eq!(ledger.total_supply(), 3);
    assert_eq!(ledger.balance_of(a), 2);
}

#[test]
fn burn_removes_the_token_from_both_lists() {
    let (mut ledger, a, b) = three_tokens();
    assert_eq!(ledger.burn(a, 1), Ok(()));
    // the last token of each list has moved into the vacated position
    assert_eq!(ledger.token_by_index(0), Ok(3));
    assert_eq!(ledger.token_by_index(1), Ok(2));
    assert_eq!(ledger.token_by_index(2), Err(Error::OutOfBounds));
    assert_eq!(ledger.token_of_owner_by_index(a, 0), Ok(3));
    assert_eq!(ledger.token_of_owner_by_index(a, 1), Err(Error::OutOfBounds));
    assert_eq!(ledger.token_of_owner_by_index(b, 0), Ok(2));
    assert_eq!(ledger.balance_of(a), 1);
    assert_eq!(ledger.total_supply(), 2);
}

#[test]
fn burned_token_can_be_minted_again_without_its_approval() {
    let (mut ledger, a, b) = three_tokens();
    let c = user(3);
    assert_eq!(ledger.approve(a, Some(c), 1, 500), Ok(()));
    assert_eq!(ledger.burn(a, 1), Ok(()));
    ledger.mint(b, 1);
    assert_eq!(ledger.owner_of(1), Some(b));
    assert_eq!(ledger.get_approved(1), None);
    assert_eq!(ledger.total_supply(), 3);
}

#[test]
fn minting_twice_is_minting_once() {
    let a = user(1);
    let b = user(2);
    let mut once = fresh(true);
    once.mint(a, 7);
    let mut twice = fresh(true);
    twice.mint(a, 7);
    twice.mint(b, 7);
    for ledger in [&once, &twice] {
        assert_eq!(ledger.owner_of(7), Some(a));
        assert_eq!(ledger.balance_of(a), 1);
        assert_eq!(ledger.balance_of(b), 0);
        assert_eq!(ledger.total_supply(), 1);
        assert_eq!(ledger.token_by_index(0), Ok(7));
        assert_eq!(ledger.token_by_index(1), Err(Error::OutOfBounds));
        assert_eq!(ledger.token_of_owner_by_index(a, 0), Ok(7));
        assert_eq!(ledger.token_of_owner_by_index(a, 1), Err(Error::OutOfBounds));
        assert_eq!(ledger.token_of_owner_by_index(b, 0), Err(Error::OutOfBounds));
    }
}

#[test]
fn balances_add_up_to_the_supply() {
    let (mut ledger, a, b) = three_tokens();
    let c = user(3);
    ledger.mint(c, 4);
    ledger.mint(c, 5);
    assert_eq!(ledger.transfer_from(a, a, c, 1), Ok(()));
    assert_eq!(ledger.burn(b, 2), Ok(()));
    assert_eq!(ledger.transfer_from(c, c, b, 5), Ok(()));
    let sum = ledger.balance_of(a) + ledger.balance_of(b) + ledger.balance_of(c);
    assert_eq!(sum, ledger.total_supply());
    assert_eq!(ledger.total_supply(), 4);
    assert_eq!(ledger.balance_of(a), 1);
    assert_eq!(ledger.balance_of(b), 1);
    assert_eq!(ledger.balance_of(c), 2);
}

#[test]
fn positions_past_the_supply_are_refused() {
    let (ledger, a, _b) = three_tokens();
    for i in [3u32, 4, 1000, u32::MAX] {
        assert_eq!(ledger.token_by_index(i), Err(Error::OutOfBounds));
        assert_eq!(ledger.token_of_owner_by_index(a, i), Err(Error::OutOfBounds));
    }
    assert_eq!(ledger.token_of_owner_by_index(a, 2), Err(Error::OutOfBounds));
    assert_eq!(ledger.token_of_owner_by_index(user(9), 0), Err(Error::OutOfBounds));
}

#[test]
fn every_listed_token_belongs_to_the_owner_it_is_listed_for() {
    let (mut ledger, a, b) = three_tokens();
    let c = user(3);
    for t in 10u32..30 {
        ledger.mint(if t % 3 == 0 { a } else if t % 3 == 1 { b } else { c }, t);
    }
    for t in 10u32..30 {
        if t % 2 == 0 {
            let owner = ledger.owner_of(t).unwrap();
            assert_eq!(ledger.transfer_from(owner, owner, c, t), Ok(()));
        }
        if t % 5 == 0 {
            let owner = ledger.owner_of(t).unwrap();
            assert_eq!(ledger.burn(owner, t), Ok(()));
        }
    }
    let mut seen = 0u32;
    for who in [a, b, c] {
        let n = ledger.balance_of(who);
        for i in 0..n {
            let t = ledger.token_of_owner_by_index(who, i).unwrap();
            assert_eq!(ledger.owner_of(t), Some(who));
        }
        assert_eq!(ledger.token_of_owner_by_index(who, n), Err(Error::OutOfBounds));
        seen += n;
    }
    assert_eq!(seen, ledger.total_supply());
    let mut all: Vec<u32> = (0..ledger.total_supply())
        .map(|i| ledger.token_by_index(i).unwrap())
        .collect();
    all.sort();
    all.dedup();
    assert_eq!(all.len() as u32, ledger.total_supply());
    for t in all {
        assert!(ledger.owner_of(t).is_some());
    }
}

#[test]
fn without_enumeration_balances_are_still_counted() {
    let a = user(1);
    let b = user(2);
    let mut ledger = fresh(false);
    assert!(!ledger.is_enumerable());
    ledger.mint(a, 1);
    ledger.mint(b, 2);
    ledger.mint(a, 3);
    assert_eq!(ledger.balance_of(a), 2);
    assert_eq!(ledger.balance_of(b), 1);
    assert_eq!(ledger.total_supply(), 3);
    assert_eq!(ledger.token_by_index(0), Err(Error::OutOfBounds));
    assert_eq!(ledger.token_of_owner_by_index(a, 0), Err(Error::OutOfBounds));
    assert_eq!(ledger.transfer_from(a, a, b, 3), Ok(()));
    assert_eq!(ledger.balance_of(a), 1);
    assert_eq!(ledger.balance_of(b), 2);
    assert_eq!(ledger.burn(b, 2), Ok(()));
    assert_eq!(ledger.balance_of(b), 1);
    assert_eq!(ledger.total_supply(), 2);
    ledger.mint(a, 3);
    assert_eq!(ledger.balance_of(a), 1);
}

#[test]
fn token_uri_defaults_to_a_fixed_text() {
    let (mut ledger, _a, _b) = three_tokens();
    assert_eq!(ledger.token_uri(1), "no uri");
    ledger.set_token_uri(1, String::from("ipfs://one"));
    assert_eq!(ledger.token_uri(1), "ipfs://one");
    assert_eq!(ledger.token_uri(2), "no uri");
    ledger.set_token_uri(1, String::from("ipfs://uno"));
    assert_eq!(ledger.token_uri(1), "ipfs://uno");
}

#[test]
fn accounts_and_contracts_are_different_parties() {
    let account = Identity::account(1, 2);
    let contract = Identity::contract(1, 2);
    assert!(account.same(&account));
    assert!(!account.same(&contract));
    assert!(!account.same(&Identity::account(2, 1)));
    assert_eq!(account, Identity { contract: false, high: 1, low: 2 });
    let mut ledger = fresh(true);
    ledger.mint(account, 1);
    assert_eq!(ledger.balance_of(account), 1);
    assert_eq!(ledger.balance_of(contract), 0);
    assert_eq!(ledger.transfer_from(contract, account, contract, 1), Err(Error::NotAuthorized));
}

#[test]
fn tokens_of_an_owner_can_be_put_in_another_order() {
    let (mut ledger, a, b) = three_tokens();
    ledger.mint(a, 4);
    assert!(ledger.arrange_owned(a, &vec![4, 1, 3]));
    assert_eq!(ledger.token_of_owner_by_index(a, 0), Ok(4));
    assert_eq!(ledger.token_of_owner_by_index(a, 1), Ok(1));
    assert_eq!(ledger.token_of_owner_by_index(a, 2), Ok(3));
    assert_eq!(ledger.token_of_owner_by_index(a, 3), Err(Error::OutOfBounds));
    assert_eq!(ledger.balance_of(a), 3);
    // the other enumerations are as they were
    assert_eq!(ledger.token_of_owner_by_index(b, 0), Ok(2));
    assert_eq!(ledger.token_by_index(0), Ok(1));
    assert_eq!(ledger.token_by_index(3), Ok(4));
    // removal still finds every token where the new order put it
    assert_eq!(ledger.burn(a, 4), Ok(()));
    assert_eq!(ledger.token_of_owner_by_index(a, 0), Ok(3));
    assert_eq!(ledger.token_of_owner_by_index(a, 1), Ok(1));
}

#[test]
fn an_order_that_is_not_of_the_owners_tokens_is_refused() {
    let (mut ledger, a, b) = three_tokens();
    // a token twice
    assert!(!ledger.arrange_owned(a, &vec![1, 1]));
    // a token of another owner
    assert!(!ledger.arrange_owned(a, &vec![1, 2]));
    // a token that is not live
    assert!(!ledger.arrange_owned(a, &vec![1, 9]));
    // too few and too many
    assert!(!ledger.arrange_owned(a, &vec![1]));
    assert!(!ledger.arrange_owned(a, &vec![1, 3, 2]));
    assert!(!ledger.arrange_owned(a, &vec![]));
    // an identity without tokens has only the empty order
    assert!(ledger.arrange_owned(user(9), &vec![]));
    assert!(!ledger.arrange_owned(user(9), &vec![1]));
    assert_eq!(ledger.token_of_owner_by_index(a, 0), Ok(1));
    assert_eq!(ledger.token_of_owner_by_index(a, 1), Ok(3));
    assert_eq!(ledger.token_of_owner_by_index(b, 0), Ok(2));
    // the order it has is an order of its tokens
    assert!(ledger.arrange_owned(a, &vec![1, 3]));
    assert_eq!(ledger.token_of_owner_by_index(a, 1), Ok(3));
}

#[test]
fn without_enumeration_there_is_nothing_to_put_in_order() {
    let a = user(1);
    let mut ledger = fresh(false);
    ledger.mint(a, 1);
    assert!(!ledger.arrange_owned(a, &vec![1]));
    assert!(ledger.arrange_owned(a, &vec![]));
    assert_eq!(ledger.balance_of(a), 1);
}
