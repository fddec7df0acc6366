use compute_market::principal::Principal;
use compute_market::provider_registry::ComputeProviderRegistry;

fn alice() -> Principal {
    Principal::from_bytes([0x1; 20])
}

fn bob() -> Principal {
    Principal::from_bytes([0x2; 20])
}

fn charlie() -> Principal {
    Principal::from_bytes([0x3; 20])
}

#[test]
fn provider_registry_new_works() {
    let min_stake = 1000u128;
    let registry = ComputeProviderRegistry::new(min_stake, alice());

    assert_eq!(registry.get_min_stake(), min_stake);
    assert_eq!(registry.get_admin(), alice());
    assert_eq!(registry.get_provider_count(), 0);
}

#[test]
fn register_provider_works() {
    let mut registry = ComputeProviderRegistry::new(1000u128, alice());

    assert!(registry.register_provider(bob(), 1000, 0, "http://provider.com".to_string(), 100, 50u128));

    assert_eq!(registry.get_provider_count(), 1);

    let profile = registry.get_provider(bob()).unwrap();
    assert_eq!(profile.provider, bob());
    assert_eq!(profile.endpoint, "http://provider.com");
    assert_eq!(profile.compute_units, 100);
    assert_eq!(profile.hourly_rate, 50u128);
    assert_eq!(profile.is_active, true);
    assert_eq!(profile.stake, 1000u128);
    assert_eq!(profile.reputation_score, 100);
}

#[test]
fn register_provider_insufficient_stake_fails() {
    let mut registry = ComputeProviderRegistry::new(1000u128, alice());

    // 500 is below the minimum stake
    assert!(!registry.register_provider(bob(), 500, 0, "http://provider.com".to_string(), 100, 50u128));

    assert_eq!(registry.get_provider_count(), 0);
    assert!(registry.get_provider(bob()).is_none());
}

#[test]
fn register_provider_already_registered_fails() {
    let mut registry = ComputeProviderRegistry::new(1000u128, alice());

    assert!(registry.register_provider(bob(), 1000, 0, "http://provider1.com".to_string(), 100, 50u128));
    assert!(!registry.register_provider(bob(), 1000, 0, "http://provider2.com".to_string(), 200, 75u128));

    // the first registration stays
    let profile = registry.get_provider(bob()).unwrap();
    assert_eq!(profile.endpoint, "http://provider1.com");
    assert_eq!(profile.compute_units, 100);
}

#[test]
fn update_provider_works() {
    let mut registry = ComputeProviderRegistry::new(1000u128, alice());
    registry.register_provider(bob(), 1000, 0, "http://old.com".to_string(), 100, 50u128);

    assert!(registry.update_provider(bob(), "http://new.com".to_string(), 75u128));

    let profile = registry.get_provider(bob()).unwrap();
    assert_eq!(profile.endpoint, "http://new.com");
    assert_eq!(profile.hourly_rate, 75u128);
    assert_eq!(profile.compute_units, 100); // unchanged
}

#[test]
fn update_provider_not_registered_fails() {
    let mut registry = ComputeProviderRegistry::new(1000u128, alice());
    assert!(!registry.update_provider(bob(), "http://new.com".to_string(), 75u128));
}

#[test]
fn set_active_works() {
    let mut registry = ComputeProviderRegistry::new(1000u128, alice());
    registry.register_provider(bob(), 1000, 0, "http://provider.com".to_string(), 100, 50u128);

    assert_eq!(registry.get_provider(bob()).unwrap().is_active, true);

    assert!(registry.set_active(bob(), false));
    assert_eq!(registry.get_provider(bob()).unwrap().is_active, false);

    assert!(registry.set_active(bob(), true));
    assert_eq!(registry.get_provider(bob()).unwrap().is_active, true);
}

#[test]
fn set_active_not_registered_fails() {
    let mut registry = ComputeProviderRegistry::new(1000u128, alice());
    assert!(!registry.set_active(bob(), false));
}

#[test]
fn add_stake_works() {
    let mut registry = ComputeProviderRegistry::new(1000u128, alice());
    registry.register_provider(bob(), 1000, 0, "http://provider.com".to_string(), 100, 50u128);

    assert!(registry.add_stake(bob(), 500));

    let profile = registry.get_provider(bob()).unwrap();
    assert_eq!(profile.stake, 1500u128);
}

#[test]
fn add_stake_zero_amount_fails() {
    let mut registry = ComputeProviderRegistry::new(1000u128, alice());
    registry.register_provider(bob(), 1000, 0, "http://provider.com".to_string(), 100, 50u128);

    assert!(!registry.add_stake(bob(), 0));

    let profile = registry.get_provider(bob()).unwrap();
    assert_eq!(profile.stake, 1000u128);
}

#[test]
fn add_stake_not_registered_fails() {
    let mut registry = ComputeProviderRegistry::new(1000u128, alice());
    assert!(!registry.add_stake(bob(), 500));
}

#[test]
fn withdraw_stake_by_inactive_provider_works() {
    let mut registry = ComputeProviderRegistry::new(1000u128, alice());
    registry.register_provider(bob(), 2000, 0, "http://provider.com".to_string(), 100, 50u128);

    registry.set_active(bob(), false);

    assert!(registry.withdraw_stake(bob(), 500u128, true));

    let profile = registry.get_provider(bob()).unwrap();
    assert_eq!(profile.stake, 1500u128);
}

#[test]
fn withdraw_stake_by_admin_as_provider_works() {
    let mut registry = ComputeProviderRegistry::new(1000u128, alice());

    // the admin registers as a provider
    registry.register_provider(alice(), 2000, 0, "http://admin-provider.com".to_string(), 100, 50u128);

    // the admin withdraws from its own account even while active
    assert!(registry.withdraw_stake(alice(), 500u128, true));

    let profile = registry.get_provider(alice()).unwrap();
    assert_eq!(profile.stake, 1500u128);
}

#[test]
fn withdraw_stake_active_provider_fails() {
    let mut registry = ComputeProviderRegistry::new(1000u128, alice());
    registry.register_provider(bob(), 2000, 0, "http://provider.com".to_string(), 100, 50u128);

    // an active provider cannot withdraw
    assert!(!registry.withdraw_stake(bob(), 500u128, true));

    let profile = registry.get_provider(bob()).unwrap();
    assert_eq!(profile.stake, 2000u128);
}

#[test]
fn withdraw_stake_insufficient_balance_fails() {
    let mut registry = ComputeProviderRegistry::new(1000u128, alice());
    registry.register_provider(bob(), 1000, 0, "http://provider.com".to_string(), 100, 50u128);

    registry.set_active(bob(), false);

    assert!(!registry.withdraw_stake(bob(), 1500u128, true));

    let profile = registry.get_provider(bob()).unwrap();
    assert_eq!(profile.stake, 1000u128);
}

#[test]
fn withdraw_stake_rejected_transfer_changes_nothing() {
    let mut registry = ComputeProviderRegistry::new(1000u128, alice());
    registry.register_provider(bob(), 2000, 0, "http://provider.com".to_string(), 100, 50u128);
    registry.set_active(bob(), false);

    // the runtime reports that the outward transfer was not accepted
    assert!(!registry.withdraw_stake(bob(), 500u128, false));

    let profile = registry.get_provider(bob()).unwrap();
    assert_eq!(profile.stake, 2000u128);
}

#[test]
fn set_reputation_by_admin_works() {
    let mut registry = ComputeProviderRegistry::new(1000u128, alice());
    registry.register_provider(bob(), 1000, 0, "http://provider.com".to_string(), 100, 50u128);

    assert!(registry.set_reputation(alice(), bob(), 85));

    let profile = registry.get_provider(bob()).unwrap();
    assert_eq!(profile.reputation_score, 85);
}

#[test]
fn set_reputation_not_admin_fails() {
    let mut registry = ComputeProviderRegistry::new(1000u128, alice());
    registry.register_provider(bob(), 1000, 0, "http://provider.com".to_string(), 100, 50u128);

    assert!(!registry.set_reputation(charlie(), bob(), 85));

    let profile = registry.get_provider(bob()).unwrap();
    assert_eq!(profile.reputation_score, 100); // unchanged
}

#[test]
fn set_reputation_nonexistent_provider_fails() {
    let mut registry = ComputeProviderRegistry::new(1000u128, alice());
    assert!(!registry.set_reputation(alice(), bob(), 85));
}

#[test]
fn set_reputation_clamps_to_bound() {
    let mut registry = ComputeProviderRegistry::new(1000u128, alice());
    registry.register_provider(bob(), 1000, 0, "http://provider.com".to_string(), 100, 50u128);

    assert!(registry.set_reputation(alice(), bob(), 5000));

    let profile = registry.get_provider(bob()).unwrap();
    assert_eq!(profile.reputation_score, 1000);
}

#[test]
fn set_min_stake_by_admin_works() {
    let mut registry = ComputeProviderRegistry::new(1000u128, alice());

    assert!(registry.set_min_stake(alice(), 2000u128));
    assert_eq!(registry.get_min_stake(), 2000u128);
}

#[test]
fn set_min_stake_not_admin_fails() {
    let mut registry = ComputeProviderRegistry::new(1000u128, alice());

    assert!(!registry.set_min_stake(bob(), 2000u128));
    assert_eq!(registry.get_min_stake(), 1000u128);
}

#[test]
fn get_provider_nonexistent() {
    let registry = ComputeProviderRegistry::new(1000u128, alice());
    assert!(registry.get_provider(bob()).is_none());
}

#[test]
fn multiple_providers_registration() {
    let mut registry = ComputeProviderRegistry::new(1000u128, alice());

    assert!(registry.register_provider(bob(), 1000, 0, "http://bob.com".to_string(), 100, 50u128));
    assert!(registry.register_provider(charlie(), 1500, 0, "http://charlie.com".to_string(), 200, 75u128));

    assert_eq!(registry.get_provider_count(), 2);

    let bob_profile = registry.get_provider(bob()).unwrap();
    let charlie_profile = registry.get_provider(charlie()).unwrap();

    assert_eq!(bob_profile.endpoint, "http://bob.com");
    assert_eq!(bob_profile.stake, 1000u128);
    assert_eq!(charlie_profile.endpoint, "http://charlie.com");
    assert_eq!(charlie_profile.stake, 1500u128);
}

#[test]
fn add_stake_saturates_at_the_bound() {
    let mut registry = ComputeProviderRegistry::new(1000u128, alice());
    registry.register_provider(bob(), u128::MAX - 10, 0, "http://provider.com".to_string(), 100, 50u128);

    assert!(registry.add_stake(bob(), 100));

    let profile = registry.get_provider(bob()).unwrap();
    assert_eq!(profile.stake, u128::MAX);
}
