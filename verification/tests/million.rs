use erc721::{Error, Identity, Million, MillionError, MAX_SUPPLY};

fn user(n: u128) -> Identity {
    Identity::account(7, n)
}

#[test]
fn test_init() {
    let asset_admin = user(1);
    let native_addr = Identity::contract(0, asset_admin.low);

    let admin = user(2);
    let client = Million::initialize(admin, native_addr, 100);

    assert_eq!(client.name(), String::from("Pixel"));
    assert_eq!(client.symbol(), String::from("PIX"));
}

#[test]
fn mint() {
    let native_addr = Identity::contract(0, 1);

    let admin = user(2);
    let mut client = Million::initialize(admin, native_addr, 2_560_000_000);

    assert_eq!(client.name(), String::from("Pixel"));
    assert_eq!(client.symbol(), String::from("PIX"));

    let user1 = user(3);
    let minted = client.mint(user1);
    println!("{:?}", minted);

    let user2 = user(4);
    let _ = client.mint(user2);

    assert_eq!(client.balance_of(user1), 1);
    assert_eq!(client.balance_of(user2), 1);

    let mut uri = [0u8; 62];
    uri.copy_from_slice(client.token_uri(0).as_bytes());
    assert_eq!(
        uri,
        "https://0x000.millionlumenhomepage.art/.well-known/erc721.json".as_bytes()
    );
    uri.copy_from_slice(client.token_uri(1).as_bytes());
    assert_eq!(
        uri,
        "https://0x001.millionlumenhomepage.art/.well-known/erc721.json".as_bytes()
    );
}

#[test]
fn mint_all() {
    let max = MAX_SUPPLY + 1;
    let native_addr = Identity::contract(0, 1);

    let admin = user(2);
    let mut client = Million::initialize(admin, native_addr, 2_560_000_000);

    for i in 0..max {
        let user1 = user(100 + i as u128);
        let _ = client.mint(user1);
    }

    assert_eq!(client.total_supply(), max);
    let user1 = user(99);
    let result = client.mint(user1);

    assert_eq!(result, Err(MillionError::Exhausted));
}

#[test]
fn exhausted_mint_changes_nothing() {
    let mut client = Million::initialize(user(2), Identity::contract(0, 1), 5);
    let buyer = user(3);
    for _ in 0..=MAX_SUPPLY {
        assert_eq!(client.mint(buyer), Ok(()));
    }
    assert_eq!(client.balance_of(buyer), MAX_SUPPLY + 1);
    assert_eq!(client.mint(user(4)), Err(MillionError::Exhausted));
    assert_eq!(client.total_supply(), MAX_SUPPLY + 1);
    assert_eq!(client.balance_of(user(4)), 0);
    assert_eq!(client.balance_of(buyer), MAX_SUPPLY + 1);
}

#[test]
fn million_remembers_asset_and_price() {
    let asset = Identity::contract(9, 9);
    let client = Million::initialize(user(2), asset, 2_560_000_000);
    assert_eq!(client.asset(), asset);
    assert_eq!(client.price(), 2_560_000_000);
    assert_eq!(client.total_supply(), 0);
}

#[test]
fn ids_are_handed_out_in_order() {
    let mut client = Million::initialize(user(2), Identity::contract(0, 1), 5);
    let a = user(3);
    let b = user(4);
    assert_eq!(client.mint(a), Ok(()));
    assert_eq!(client.mint(b), Ok(()));
    assert_eq!(client.mint(a), Ok(()));
    assert_eq!(client.total_supply(), 3);
    // ids 0 and 2 went to a, id 1 to b
    assert_eq!(client.transfer_from(a, a, b, 1), Err(Error::NotOwner));
    assert_eq!(client.transfer_from(a, a, b, 2), Ok(()));
    assert_eq!(client.balance_of(a), 1);
    assert_eq!(client.balance_of(b), 2);
    assert_eq!(client.transfer_from(a, a, b, 3), Err(Error::NotNFT));
}

#[test]
fn million_forwards_approvals() {
    let mut client = Million::initialize(user(2), Identity::contract(0, 1), 5);
    let a = user(3);
    let b = user(4);
    let c = user(5);
    assert_eq!(client.mint(a), Ok(()));
    assert_eq!(client.approve(b, Some(c), 0, 10), Err(Error::NotAuthorized));
    assert_eq!(client.approve(a, Some(c), 0, 10), Ok(()));
    assert_eq!(client.get_approved(0), Some(c));
    assert_eq!(client.set_approval_for_all(a, a, b, true, 10), Ok(()));
    assert!(client.is_approval_for_all(a, b));
    client.advance_to(11);
    assert_eq!(client.get_approved(0), None);
    assert!(!client.is_approval_for_all(a, b));
    assert_eq!(client.transfer_from(c, a, b, 0), Err(Error::NotAuthorized));
}

#[test]
fn pixel_locators_are_padded_to_three_digits() {
    let client = Million::initialize(user(2), Identity::contract(0, 1), 5);
    for token_id in [0u32, 1, 9, 10, 15, 16, 0xab, 0xff, 0x100, 0xfff, 0x1000, 0xdead_beef, u32::MAX]
    {
        let expected = format!(
            "https://{:#05x}.millionlumenhomepage.art/.well-known/erc721.json",
            token_id
        );
        assert_eq!(client.token_uri(token_id), expected);
    }
    assert_eq!(
        client.token_uri(0xfff),
        "https://0xfff.millionlumenhomepage.art/.well-known/erc721.json"
    );
    assert_eq!(
        client.token_uri(0x1f),
        "https://0x01f.millionlumenhomepage.art/.well-known/erc721.json"
    );
}
