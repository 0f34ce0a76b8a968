//! Expiry boundary of boosts: a boost with `expires_at_ledger = N` counts
//! only while the ledger is below `N`; `expires_at_ledger = 0` never expires.

use tycoon::boost::{additive, multiplicative, BoostSystem};
use tycoon::Address;

const ADMIN: Address = 1;
const PLAYER: Address = 2;

fn setup() -> (BoostSystem, Address) {
    let mut sys = BoostSystem::new();
    sys.initialize(ADMIN).unwrap();
    (sys, PLAYER)
}

#[test]
fn test_boost_expired_at_exact_expiry_ledger() {
    let (mut sys, player) = setup();
    sys.add_boost(ADMIN, player, additive(1, 1000, 100), 50).unwrap();
    assert_eq!(
        sys.calculate_total_boost(player, 100).unwrap(),
        10000,
        "Boost must be expired (inclusive) at ledger == expires_at_ledger"
    );
}

#[test]
fn test_boost_active_one_before_expiry() {
    let (mut sys, player) = setup();
    sys.add_boost(ADMIN, player, additive(1, 1000, 100), 50).unwrap();
    assert_eq!(
        sys.calculate_total_boost(player, 99).unwrap(),
        11000,
        "Boost must be active one ledger before expires_at_ledger"
    );
}

#[test]
fn test_boost_expired_one_after_expiry() {
    let (mut sys, player) = setup();
    sys.add_boost(ADMIN, player, additive(1, 1000, 100), 50).unwrap();
    assert_eq!(sys.calculate_total_boost(player, 101).unwrap(), 10000);
}

#[test]
fn test_boost_never_expires_sentinel_zero() {
    let (mut sys, player) = setup();
    sys.add_boost(ADMIN, player, additive(1, 500, 0), 1).unwrap();
    assert_eq!(
        sys.calculate_total_boost(player, 999_999).unwrap(),
        10500,
        "Sentinel boost (expires_at_ledger=0) must never expire"
    );
}

#[test]
fn test_mixed_one_expired_one_active_at_boundary() {
    let (mut sys, player) = setup();
    sys.add_boost(ADMIN, player, additive(1, 1000, 100), 50).unwrap();
    sys.add_boost(ADMIN, player, additive(2, 500, 200), 50).unwrap();
    assert_eq!(
        sys.calculate_total_boost(player, 100).unwrap(),
        10500,
        "Only non-expired boost must contribute at boundary"
    );
}

#[test]
fn test_mixed_both_boosts_expire_at_respective_boundaries() {
    let (mut sys, player) = setup();
    sys.add_boost(ADMIN, player, additive(1, 2000, 50), 10).unwrap();
    sys.add_boost(ADMIN, player, additive(2, 1000, 75), 10).unwrap();
    assert_eq!(sys.calculate_total_boost(player, 49).unwrap(), 13000);
    assert_eq!(sys.calculate_total_boost(player, 50).unwrap(), 11000);
    assert_eq!(sys.calculate_total_boost(player, 74).unwrap(), 11000);
    assert_eq!(sys.calculate_total_boost(player, 75).unwrap(), 10000);
}

#[test]
fn test_sentinel_plus_expiring_boost_at_boundary() {
    let (mut sys, player) = setup();
    sys.add_boost(ADMIN, player, additive(1, 500, 0), 1).unwrap();
    sys.add_boost(ADMIN, player, additive(2, 1000, 100), 1).unwrap();
    assert_eq!(sys.calculate_total_boost(player, 99).unwrap(), 11500);
    assert_eq!(
        sys.calculate_total_boost(player, 100).unwrap(),
        10500,
        "At expiry ledger only sentinel survives"
    );
}

#[test]
fn test_multiplicative_expired_at_exact_boundary() {
    let (mut sys, player) = setup();
    sys.add_boost(ADMIN, player, multiplicative(1, 15000, 100), 10).unwrap();
    assert_eq!(sys.calculate_total_boost(player, 99).unwrap(), 15000);
    assert_eq!(sys.calculate_total_boost(player, 100).unwrap(), 10000);
}

#[test]
fn test_multiplicative_active_one_before_boundary() {
    let (mut sys, player) = setup();
    sys.add_boost(ADMIN, player, multiplicative(1, 12000, 50), 1).unwrap();
    assert_eq!(sys.calculate_total_boost(player, 49).unwrap(), 12000);
}

#[test]
fn test_get_active_boosts_treats_exact_expiry_as_expired() {
    let (mut sys, player) = setup();
    sys.add_boost(ADMIN, player, additive(1, 1000, 100), 10).unwrap();
    sys.add_boost(ADMIN, player, additive(2, 500, 0), 10).unwrap();
    let active = sys.get_active_boosts(player, 100);
    assert_eq!(
        active.len(),
        1,
        "Only the never-expiring boost must be returned at exact expiry ledger"
    );
    assert_eq!(
        active.get(0).unwrap().id,
        2,
        "The returned boost must be the never-expiring sentinel"
    );
}

#[test]
fn test_get_active_boosts_returns_all_before_expiry() {
    let (mut sys, player) = setup();
    sys.add_boost(ADMIN, player, additive(1, 1000, 100), 1).unwrap();
    sys.add_boost(ADMIN, player, additive(2, 500, 200), 1).unwrap();
    sys.add_boost(ADMIN, player, additive(3, 200, 0), 1).unwrap();
    assert_eq!(sys.get_active_boosts(player, 50).len(), 3);
}

#[test]
fn test_prune_removes_boost_at_exact_expiry_ledger() {
    let (mut sys, player) = setup();
    sys.add_boost(ADMIN, player, additive(1, 1000, 100), 10).unwrap();
    sys.add_boost(ADMIN, player, additive(2, 500, 0), 10).unwrap();
    let removed = sys.prune_expired_boosts(player, 100);
    assert_eq!(removed, 1, "Exactly one boost must be pruned at boundary");
    assert_eq!(
        sys.get_active_boosts(player, 100).len(),
        1,
        "Only sentinel boost must remain after prune"
    );
}

#[test]
fn test_calculate_total_boost_after_prune_at_boundary() {
    let (mut sys, player) = setup();
    sys.add_boost(ADMIN, player, additive(1, 2000, 50), 1).unwrap();
    sys.add_boost(ADMIN, player, additive(2, 500, 0), 1).unwrap();
    sys.prune_expired_boosts(player, 50);
    assert_eq!(sys.calculate_total_boost(player, 50).unwrap(), 10500);
}

#[test]
fn test_no_boosts_returns_base_at_any_ledger() {
    let sys = BoostSystem::new();
    let player: Address = 2;
    for seq in [0u32, 1, 100, 99_999] {
        assert_eq!(
            sys.calculate_total_boost(player, seq).unwrap(),
            10000,
            "Empty player must always return base at ledger={}",
            seq
        );
    }
}

#[test]
fn test_expiry_at_ledger_one_inclusive() {
    let (mut sys, player) = setup();
    sys.add_boost(ADMIN, player, additive(1, 1000, 1), 0).unwrap();
    assert_eq!(sys.calculate_total_boost(player, 0).unwrap(), 11000);
    assert_eq!(sys.calculate_total_boost(player, 1).unwrap(), 10000);
}

#[test]
fn test_expiry_at_u32_max_is_active_at_normal_ledgers() {
    let (mut sys, player) = setup();
    sys.add_boost(ADMIN, player, additive(1, 1000, u32::MAX), 1).unwrap();
    assert_eq!(
        sys.calculate_total_boost(player, 1_000_000).unwrap(),
        11000,
        "u32::MAX expiry boost must be active at ledger 1_000_000"
    );
}
