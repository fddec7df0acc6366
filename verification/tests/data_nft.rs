use compute_market::data_nft::DataNftRegistry;
use compute_market::principal::Principal;

fn alice() -> Principal {
    Principal::from_bytes([0x1; 20])
}

fn bob() -> Principal {
    Principal::from_bytes([0x2; 20])
}

fn charlie() -> Principal {
    Principal::from_bytes([0x3; 20])
}

#[test]
fn data_nft_new_works() {
    let registry = DataNftRegistry::new(alice());
    assert_eq!(registry.total_supply(), 0);
    assert_eq!(registry.get_admin(), alice());
}

#[test]
fn mint_works() {
    let mut registry = DataNftRegistry::new(alice());

    let token_id = registry.mint(alice(), 0, "ipfs://example".to_string(), 1, 100u128, true);

    assert_eq!(token_id, 1);
    assert_eq!(registry.total_supply(), 1);
    assert_eq!(registry.balance_of(alice()), 1);

    let nft = registry.get_nft(1).unwrap();
    assert_eq!(nft.owner, alice());
    assert_eq!(nft.data_uri, "ipfs://example");
    assert_eq!(nft.privacy_level, 1);
    assert_eq!(nft.access_price, 100u128);
    assert_eq!(nft.is_transferable, true);
}

#[test]
fn mint_multiple_works() {
    let mut registry = DataNftRegistry::new(alice());

    let token_id1 = registry.mint(alice(), 0, "uri1".to_string(), 0, 50u128, true);
    let token_id2 = registry.mint(alice(), 0, "uri2".to_string(), 2, 200u128, false);

    assert_eq!(token_id1, 1);
    assert_eq!(token_id2, 2);
    assert_eq!(registry.total_supply(), 2);
    assert_eq!(registry.balance_of(alice()), 2);

    let nft1 = registry.get_nft(1).unwrap();
    let nft2 = registry.get_nft(2).unwrap();
    assert_eq!(nft1.is_transferable, true);
    assert_eq!(nft2.is_transferable, false);
}

#[test]
fn transfer_works() {
    let mut registry = DataNftRegistry::new(alice());

    let token_id = registry.mint(alice(), 0, "uri".to_string(), 0, 100u128, true);
    assert!(registry.transfer(alice(), token_id, bob()));

    assert_eq!(registry.balance_of(alice()), 0);
    assert_eq!(registry.balance_of(bob()), 1);

    let nft = registry.get_nft(token_id).unwrap();
    assert_eq!(nft.owner, bob());
}

#[test]
fn transfer_non_transferable_fails() {
    let mut registry = DataNftRegistry::new(alice());

    let token_id = registry.mint(alice(), 0, "uri".to_string(), 0, 100u128, false);
    assert!(!registry.transfer(alice(), token_id, bob()));

    let nft = registry.get_nft(token_id).unwrap();
    assert_eq!(nft.owner, alice());
}

#[test]
fn transfer_not_owner_fails() {
    let mut registry = DataNftRegistry::new(alice());

    let token_id = registry.mint(alice(), 0, "uri".to_string(), 0, 100u128, true);

    assert!(!registry.transfer(bob(), token_id, charlie()));

    let nft = registry.get_nft(token_id).unwrap();
    assert_eq!(nft.owner, alice());
}

#[test]
fn transfer_nonexistent_fails() {
    let mut registry = DataNftRegistry::new(alice());
    assert!(!registry.transfer(alice(), 999, bob()));
}

#[test]
fn approve_works() {
    let mut registry = DataNftRegistry::new(alice());

    let token_id = registry.mint(alice(), 0, "uri".to_string(), 0, 100u128, true);
    assert!(registry.approve(alice(), token_id, bob()));

    assert_eq!(registry.get_approved(token_id), Some(bob()));
}

#[test]
fn approve_not_owner_fails() {
    let mut registry = DataNftRegistry::new(alice());

    let token_id = registry.mint(alice(), 0, "uri".to_string(), 0, 100u128, true);

    assert!(!registry.approve(bob(), token_id, charlie()));

    assert_eq!(registry.get_approved(token_id), None);
}

#[test]
fn approve_nonexistent_fails() {
    let mut registry = DataNftRegistry::new(alice());
    assert!(!registry.approve(alice(), 999, bob()));
}

#[test]
fn grant_access_works() {
    let mut registry = DataNftRegistry::new(alice());

    let access_price = 100u128;
    let token_id = registry.mint(alice(), 0, "uri".to_string(), 1, access_price, true);

    assert!(registry.grant_access(alice(), token_id, bob(), 100));
    assert!(registry.has_access(token_id, bob()));
}

#[test]
fn grant_access_insufficient_payment_fails() {
    let mut registry = DataNftRegistry::new(alice());

    let access_price = 100u128;
    let token_id = registry.mint(alice(), 0, "uri".to_string(), 1, access_price, true);

    // 50 is below the access price
    assert!(!registry.grant_access(alice(), token_id, bob(), 50));
    assert!(!registry.has_access(token_id, bob()));
}

#[test]
fn grant_access_not_owner_fails() {
    let mut registry = DataNftRegistry::new(alice());

    let access_price = 100u128;
    let token_id = registry.mint(alice(), 0, "uri".to_string(), 1, access_price, true);

    assert!(!registry.grant_access(bob(), token_id, charlie(), 100));
    assert!(!registry.has_access(token_id, charlie()));
}

#[test]
fn revoke_access_by_owner_works() {
    let mut registry = DataNftRegistry::new(alice());

    let token_id = registry.mint(alice(), 0, "uri".to_string(), 1, 100u128, true);

    assert!(registry.grant_access(alice(), token_id, bob(), 100));
    assert!(registry.has_access(token_id, bob()));

    assert!(registry.revoke_access(alice(), token_id, bob()));
    assert!(!registry.has_access(token_id, bob()));
}

#[test]
fn revoke_access_by_admin_works() {
    // alice is the admin
    let mut registry = DataNftRegistry::new(alice());

    let token_id = registry.mint(alice(), 0, "uri".to_string(), 1, 100u128, true);

    assert!(registry.grant_access(alice(), token_id, bob(), 100));
    assert!(registry.has_access(token_id, bob()));

    assert!(registry.revoke_access(alice(), token_id, bob()));
    assert!(!registry.has_access(token_id, bob()));
}

#[test]
fn revoke_access_unauthorized_fails() {
    let mut registry = DataNftRegistry::new(alice());

    let token_id = registry.mint(alice(), 0, "uri".to_string(), 1, 100u128, true);

    assert!(registry.grant_access(alice(), token_id, bob(), 100));

    // neither owner nor admin
    assert!(!registry.revoke_access(charlie(), token_id, bob()));
    assert!(registry.has_access(token_id, bob()));
}

#[test]
fn update_data_uri_works() {
    let mut registry = DataNftRegistry::new(alice());

    let token_id = registry.mint(alice(), 0, "old_uri".to_string(), 0, 100u128, true);
    assert!(registry.update_data_uri(alice(), token_id, "new_uri".to_string()));

    let nft = registry.get_nft(token_id).unwrap();
    assert_eq!(nft.data_uri, "new_uri");
}

#[test]
fn update_data_uri_not_owner_fails() {
    let mut registry = DataNftRegistry::new(alice());

    let token_id = registry.mint(alice(), 0, "uri".to_string(), 0, 100u128, true);

    assert!(!registry.update_data_uri(bob(), token_id, "new_uri".to_string()));

    let nft = registry.get_nft(token_id).unwrap();
    assert_eq!(nft.data_uri, "uri");
}

#[test]
fn update_access_price_works() {
    let mut registry = DataNftRegistry::new(alice());

    let token_id = registry.mint(alice(), 0, "uri".to_string(), 0, 100u128, true);
    assert!(registry.update_access_price(alice(), token_id, 200u128));

    let nft = registry.get_nft(token_id).unwrap();
    assert_eq!(nft.access_price, 200u128);
}

#[test]
fn update_access_price_not_owner_fails() {
    let mut registry = DataNftRegistry::new(alice());

    let token_id = registry.mint(alice(), 0, "uri".to_string(), 0, 100u128, true);

    assert!(!registry.update_access_price(bob(), token_id, 200u128));

    let nft = registry.get_nft(token_id).unwrap();
    assert_eq!(nft.access_price, 100u128);
}

#[test]
fn burn_by_owner_works() {
    let mut registry = DataNftRegistry::new(alice());

    let token_id = registry.mint(alice(), 0, "uri".to_string(), 0, 100u128, true);
    assert_eq!(registry.balance_of(alice()), 1);

    assert!(registry.burn(alice(), token_id));
    assert_eq!(registry.balance_of(alice()), 0);
    assert!(registry.get_nft(token_id).is_none());
}

#[test]
fn burn_by_admin_works() {
    // alice is the admin
    let mut registry = DataNftRegistry::new(alice());

    let token_id = registry.mint(bob(), 0, "uri".to_string(), 0, 100u128, true);
    assert_eq!(registry.balance_of(bob()), 1);

    assert!(registry.burn(alice(), token_id));
    assert_eq!(registry.balance_of(bob()), 0);
    assert!(registry.get_nft(token_id).is_none());
}

#[test]
fn burn_unauthorized_fails() {
    let mut registry = DataNftRegistry::new(alice());

    let token_id = registry.mint(alice(), 0, "uri".to_string(), 0, 100u128, true);

    assert!(!registry.burn(bob(), token_id));
    assert_eq!(registry.balance_of(alice()), 1);
    assert!(registry.get_nft(token_id).is_some());
}

#[test]
fn has_access_owner_always_true() {
    let mut registry = DataNftRegistry::new(alice());

    let token_id = registry.mint(alice(), 0, "uri".to_string(), 1, 100u128, true);
    assert!(registry.has_access(token_id, alice()));
}

#[test]
fn has_access_non_owner_without_grant_false() {
    let mut registry = DataNftRegistry::new(alice());

    let token_id = registry.mint(alice(), 0, "uri".to_string(), 1, 100u128, true);
    assert!(!registry.has_access(token_id, bob()));
}

#[test]
fn balance_of_empty_account() {
    let registry = DataNftRegistry::new(alice());
    assert_eq!(registry.balance_of(alice()), 0);
}

#[test]
fn get_nft_nonexistent() {
    let registry = DataNftRegistry::new(alice());
    assert!(registry.get_nft(999).is_none());
}

#[test]
fn get_approved_nonexistent() {
    let registry = DataNftRegistry::new(alice());
    assert!(registry.get_approved(999).is_none());
}
